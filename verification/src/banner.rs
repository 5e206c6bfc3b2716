//! Premium box-drawn inventory: the multi-line banner placement.
//!
//! The frame lays out its right border by character count: every row of a
//! banner whose tag fits the top border has the same number of characters.

use vstd::prelude::*;

use crate::advertisers::Box;
use crate::chars::{chars_of, is_whitespace, string_of};
use crate::color::colorize;

verus! {

/// Body width, in columns, of a banner placement.
pub const WIDTH: usize = 60;

/// The words of `s`: its maximal runs of characters that are not white
/// space, in order, as `str::split_whitespace` yields them.
pub open spec fn words(s: Seq<char>) -> Seq<Seq<char>>
    decreases s.len(),
{
    if s.len() == 0 {
        seq![]
    } else {
        let before = words(s.drop_last());
        let c = s.last();
        if crate::chars::white_space(c) {
            before
        } else if s.len() >= 2 && !crate::chars::white_space(s[s.len() - 2]) {
            before.update(before.len() - 1, before.last().push(c))
        } else {
            before.push(seq![c])
        }
    }
}

/// The words read so far while scanning a text: the completed words, then
/// the word still being read when there is one.
pub open spec fn open_words(done: Seq<Seq<char>>, cur: Seq<char>) -> Seq<Seq<char>> {
    if cur.len() == 0 {
        done
    } else {
        done.push(cur)
    }
}

/// The words of `text`.
pub fn split_words(text: &Vec<char>) -> (out: Vec<Vec<char>>)
    ensures
        out@.map_values(|w: Vec<char>| w@) == words(text@),
{
    let mut done: Vec<Vec<char>> = Vec::new();
    let mut cur: Vec<char> = Vec::new();
    let mut k: usize = 0;
    while k < text.len()
        invariant
            k <= text@.len(),
            open_words(done@.map_values(|w: Vec<char>| w@), cur@) == words(text@.take(k as int)),
            cur@.len() > 0 <==> (k > 0 && !crate::chars::white_space(text@[k - 1])),
        decreases text@.len() - k,
    {
        let c = text[k];
        let ghost d0 = done@.map_values(|w: Vec<char>| w@);
        let ghost c0 = cur@;
        assert(text@.take(k + 1).drop_last() =~= text@.take(k as int));
        assert(text@.take(k + 1).last() == c);
        if is_whitespace(c) {
            if cur.len() > 0 {
                let w = cur;
                done.push(w);
                cur = Vec::new();
                assert(done@.map_values(|w: Vec<char>| w@) =~= d0.push(c0));
            }
        } else {
            cur.push(c);
            if k > 0 {
                assert(text@.take(k + 1)[k - 1] == text@[k - 1]);
            }
            proof {
                if c0.len() > 0 {
                    assert(open_words(d0, c0.push(c)) =~= open_words(d0, c0).update(
                        d0.len() as int,
                        c0.push(c),
                    ));
                } else {
                    assert(c0.push(c) =~= seq![c]);
                    assert(open_words(d0, c0.push(c)) =~= open_words(d0, c0).push(seq![c]));
                }
            }
        }
        k = k + 1;
    }
    let ghost d0 = done@.map_values(|w: Vec<char>| w@);
    let ghost c0 = cur@;
    if cur.len() > 0 {
        done.push(cur);
        assert(done@.map_values(|w: Vec<char>| w@) =~= d0.push(c0));
    }
    assert(text@.take(text@.len() as int) =~= text@);
    done
}

/// One word laid into the lines built so far: `lines` are the finished
/// lines and `cur` the line being filled. A word longer than `width` is
/// first cut into `width`-character pieces, each a line of its own (the
/// line being filled is closed first). What is left joins `cur` after one
/// space if the result fits in `width`, and otherwise closes `cur` and
/// starts the next line.
pub open spec fn wrap_step(
    lines: Seq<Seq<char>>,
    cur: Seq<char>,
    w: Seq<char>,
    width: nat,
) -> (Seq<Seq<char>>, Seq<char>)
    decreases w.len(),
{
    if width > 0 && w.len() > width {
        let closed = if cur.len() > 0 {
            lines.push(cur)
        } else {
            lines
        };
        wrap_step(closed.push(w.take(width as int)), seq![], w.skip(width as int), width)
    } else {
        let candidate = if cur.len() == 0 {
            w
        } else {
            cur + seq![' '] + w
        };
        if candidate.len() > width {
            (lines.push(cur), w)
        } else {
            (lines, candidate)
        }
    }
}

/// The finished lines and the line being filled after laying out `ws`.
pub open spec fn wrap_words(ws: Seq<Seq<char>>, width: nat) -> (Seq<Seq<char>>, Seq<char>)
    decreases ws.len(),
{
    if ws.len() == 0 {
        (seq![], seq![])
    } else {
        let (lines, cur) = wrap_words(ws.drop_last(), width);
        wrap_step(lines, cur, ws.last(), width)
    }
}

/// `text` word-wrapped to `width` columns: greedy filling, words joined by
/// one space, a word too long for the frame broken mid-word. Always at least
/// one (possibly blank) line.
pub open spec fn wrapped(text: Seq<char>, width: nat) -> Seq<Seq<char>> {
    let (lines, cur) = wrap_words(words(text), width);
    let all = if cur.len() > 0 {
        lines.push(cur)
    } else {
        lines
    };
    if all.len() == 0 {
        seq![seq![]]
    } else {
        all
    }
}

/// The characters of `v` from `from` up to `to`.
fn copy_range(v: &Vec<char>, from: usize, to: usize) -> (out: Vec<char>)
    requires
        from <= to <= v@.len(),
    ensures
        out@ == v@.subrange(from as int, to as int),
{
    let mut out: Vec<char> = Vec::new();
    let mut k: usize = from;
    while k < to
        invariant
            from <= k <= to <= v@.len(),
            out@ == v@.subrange(from as int, k as int),
        decreases to - k,
    {
        out.push(v[k]);
        k = k + 1;
    }
    out
}

/// `text` word-wrapped to `width` columns, as character sequences.
pub fn wrap_chars(text: &Vec<char>, width: usize) -> (out: Vec<Vec<char>>)
    requires
        width > 0,
    ensures
        out@.map_values(|l: Vec<char>| l@) == wrapped(text@, width as nat),
{
    let ws = split_words(text);
    let ghost wv = words(text@);
    assert(ws@.len() == wv.len());
    let mut lines: Vec<Vec<char>> = Vec::new();
    let mut cur: Vec<char> = Vec::new();
    let mut i: usize = 0;
    assert(wv.take(0) =~= Seq::<Seq<char>>::empty());
    while i < ws.len()
        invariant
            0 < width,
            i <= ws@.len(),
            ws@.map_values(|w: Vec<char>| w@) == wv,
            (lines@.map_values(|l: Vec<char>| l@), cur@) == wrap_words(wv.take(i as int), width as nat),
        decreases ws@.len() - i,
    {
        let word = &ws[i];
        let ghost w = wv[i as int];
        assert(word@ == w);
        let ghost target = wrap_step(
            lines@.map_values(|l: Vec<char>| l@),
            cur@,
            w,
            width as nat,
        );
        assert(wv.take(i + 1).drop_last() =~= wv.take(i as int));
        assert(wv.take(i + 1).last() == w);
        let n = word.len();
        let mut off: usize = 0;
        assert(w.skip(0) =~= w);
        while n - off > width
            invariant
                0 < width,
                off <= n,
                n == w.len(),
                word@ == w,
                target == wrap_step(
                    lines@.map_values(|l: Vec<char>| l@),
                    cur@,
                    w.skip(off as int),
                    width as nat,
                ),
            decreases n - off,
        {
            let ghost lv = lines@.map_values(|l: Vec<char>| l@);
            let ghost cv = cur@;
            let ghost rest = w.skip(off as int);
            let ghost closed = if cv.len() > 0 {
                lv.push(cv)
            } else {
                lv
            };
            if cur.len() > 0 {
                let done = cur;
                lines.push(done);
                cur = Vec::new();
            }
            assert(lines@.map_values(|l: Vec<char>| l@) =~= closed);
            let piece = copy_range(word, off, off + width);
            lines.push(piece);
            assert(piece@ =~= rest.take(width as int));
            assert(lines@.map_values(|l: Vec<char>| l@) =~= closed.push(rest.take(width as int)));
            off = off + width;
            assert(w.skip(off as int) =~= rest.skip(width as int));
            assert(cur@ =~= Seq::<char>::empty());
        }
        let ghost lv = lines@.map_values(|l: Vec<char>| l@);
        let ghost cv = cur@;
        let rest = copy_range(word, off, n);
        assert(rest@ =~= w.skip(off as int));
        if cur.len() == 0 {
            cur = rest;
        } else {
            let mut candidate = copy_range(&cur, 0, cur.len());
            candidate.push(' ');
            let mut tail = copy_range(word, off, n);
            candidate.append(&mut tail);
            assert(candidate@ =~= cv + seq![' '] + rest@);
            if candidate.len() > width {
                let done = cur;
                lines.push(done);
                assert(lines@.map_values(|l: Vec<char>| l@) =~= lv.push(cv));
                cur = rest;
            } else {
                cur = candidate;
            }
        }
        i = i + 1;
    }
    assert(wv.take(ws@.len() as int) =~= wv);
    let ghost lv = lines@.map_values(|l: Vec<char>| l@);
    if cur.len() > 0 {
        let done = cur;
        lines.push(done);
        assert(lines@.map_values(|l: Vec<char>| l@) =~= lv.push(done@));
    }
    if lines.len() == 0 {
        lines.push(Vec::new());
        assert(lines@.map_values(|l: Vec<char>| l@) =~= seq![Seq::<char>::empty()]);
    }
    lines
}

/// `text` word-wrapped to `width` columns. A word longer than the frame is
/// broken mid-word; the result always holds at least one, possibly blank,
/// line.
pub fn wrap_text(text: &str, width: usize) -> (lines: Vec<String>)
    requires
        width > 0,
    ensures
        lines@.map_values(|l: String| l@) == wrapped(text@, width as nat),
{
    let cs = chars_of(text);
    let rows = wrap_chars(&cs, width);
    let ghost rv = rows@.map_values(|l: Vec<char>| l@);
    let mut out: Vec<String> = Vec::new();
    let mut k: usize = 0;
    while k < rows.len()
        invariant
            k <= rows@.len(),
            rv == rows@.map_values(|l: Vec<char>| l@),
            out@.map_values(|l: String| l@) == rv.take(k as int),
        decreases rows@.len() - k,
    {
        let line = string_of(&rows[k]);
        let ghost before = out@.map_values(|l: String| l@);
        out.push(line);
        assert(out@.map_values(|l: String| l@) =~= before.push(rv[k as int]));
        assert(rv.take(k + 1) =~= rv.take(k as int).push(rv[k as int]));
        k = k + 1;
    }
    assert(rv.take(rows@.len() as int) =~= rv);
    out
}

/// The glyph set of a frame: top-left, top-right, bottom-left, bottom-right,
/// horizontal, vertical. `ascii_only` overrides the tier with `+`, `-`, `|`.
pub open spec fn glyph_set(tier: Box, ascii_only: bool) -> Seq<char> {
    if ascii_only {
        seq!['+', '+', '+', '+', '-', '|']
    } else {
        match tier {
            Box::Light => seq!['┌', '┐', '└', '┘', '─', '│'],
            Box::Heavy => seq!['┏', '┓', '┗', '┛', '━', '┃'],
            Box::Double => seq!['╔', '╗', '╚', '╝', '═', '║'],
        }
    }
}

/// The glyphs of a frame, in the order of `glyph_set`.
fn glyphs(tier: Box, ascii_only: bool) -> (g: [char; 6])
    ensures
        g@ == glyph_set(tier, ascii_only),
{
    let g = if ascii_only {
        ['+', '+', '+', '+', '-', '|']
    } else {
        match tier {
            Box::Light => ['┌', '┐', '└', '┘', '─', '│'],
            Box::Heavy => ['┏', '┓', '┗', '┛', '━', '┃'],
            Box::Double => ['╔', '╗', '╚', '╝', '═', '║'],
        }
    };
    assert(g@ =~= glyph_set(tier, ascii_only));
    g
}

/// `n` copies of `c`.
pub open spec fn run(c: char, n: nat) -> Seq<char> {
    Seq::new(n, |i: int| c)
}

/// The top border: a solid rule for a blank prefix, otherwise the prefix as
/// a masthead, `<h> prefix <h-fill>`. The fill is counted against the plain
/// prefix, so gilding never moves the border.
pub open spec fn top_row(
    prefix: Seq<char>,
    corner: char,
    corner_r: char,
    horiz: char,
    span: nat,
    gild: bool,
) -> Seq<char> {
    if prefix.len() == 0 {
        seq![corner] + run(horiz, span) + seq![corner_r]
    } else {
        let fill: int = span - (1 + prefix.len() + 2);
        let fill_n: nat = if fill > 0 {
            fill as nat
        } else {
            0
        };
        seq![corner, horiz, ' '] + crate::color::gilded(prefix, gild) + seq![' '] + run(horiz, fill_n) + seq![
            corner_r,
        ]
    }
}

/// Append `n` copies of `c` to `out`.
fn push_run(out: &mut Vec<char>, c: char, n: usize)
    ensures
        final(out)@ == old(out)@ + run(c, n as nat),
{
    let mut k: usize = 0;
    while k < n
        invariant
            k <= n,
            out@ == old(out)@ + run(c, k as nat),
        decreases n - k,
    {
        out.push(c);
        k = k + 1;
        assert(out@ =~= old(out)@ + run(c, k as nat));
    }
}

/// Append the characters of `s` to `out`.
fn push_all(out: &mut Vec<char>, s: &Vec<char>)
    ensures
        final(out)@ == old(out)@ + s@,
{
    let mut k: usize = 0;
    while k < s.len()
        invariant
            k <= s@.len(),
            out@ == old(out)@ + s@.take(k as int),
        decreases s@.len() - k,
    {
        out.push(s[k]);
        k = k + 1;
        assert(out@ =~= old(out)@ + s@.take(k as int));
    }
    assert(s@.take(s@.len() as int) =~= s@);
}

/// Top border with the prefix embedded as a masthead.
fn top_border(
    prefix: &str,
    corner: char,
    corner_r: char,
    horiz: char,
    span: usize,
    gild: bool,
) -> (out: String)
    ensures
        out@ == top_row(prefix@, corner, corner_r, horiz, span as nat, gild),
{
    let p = chars_of(prefix);
    let mut out: Vec<char> = Vec::new();
    out.push(corner);
    if p.len() == 0 {
        push_run(&mut out, horiz, span);
        out.push(corner_r);
        assert(out@ =~= top_row(prefix@, corner, corner_r, horiz, span as nat, gild));
        return string_of(&out);
    }
    // One space either side of the tag, and one horizontal glyph before it.
    let fill = if span > p.len() && span - p.len() > 3 {
        span - p.len() - 3
    } else {
        0
    };
    out.push(horiz);
    out.push(' ');
    let tag = colorize(prefix, gild);
    let t = chars_of(tag.as_str());
    push_all(&mut out, &t);
    out.push(' ');
    push_run(&mut out, horiz, fill);
    out.push(corner_r);
    assert(out@ =~= top_row(prefix@, corner, corner_r, horiz, span as nat, gild));
    string_of(&out)
}

/// `line` padded on the right with spaces to `width` characters; a longer
/// line is left as it is.
pub open spec fn padded(line: Seq<char>, width: nat) -> Seq<char> {
    if line.len() < width {
        line + run(' ', (width - line.len()) as nat)
    } else {
        line
    }
}

/// One body row of a frame: `<v> line <v>`, the line padded to `WIDTH`.
pub open spec fn body_row(line: Seq<char>, vert: char) -> Seq<char> {
    seq![vert, ' '] + padded(line, WIDTH as nat) + seq![' ', vert]
}

/// The rows of a banner: the top border with its masthead, one body row per
/// wrapped line of `text`, and the bottom border.
pub open spec fn banner_rows(
    text: Seq<char>,
    prefix: Seq<char>,
    tier: Box,
    ascii_only: bool,
    gild: bool,
) -> Seq<Seq<char>> {
    let g = glyph_set(tier, ascii_only);
    let span = (WIDTH + 2) as nat;
    seq![top_row(prefix, g[0], g[1], g[4], span, gild)] + wrapped(text, WIDTH as nat).map_values(
        |l: Seq<char>| body_row(l, g[5]),
    ) + seq![seq![g[2]] + run(g[4], span) + seq![g[3]]]
}

/// `rows` joined by line breaks.
pub open spec fn joined(rows: Seq<Seq<char>>) -> Seq<char>
    decreases rows.len(),
{
    if rows.len() == 0 {
        seq![]
    } else if rows.len() == 1 {
        rows[0]
    } else {
        joined(rows.drop_last()) + seq!['\n'] + rows.last()
    }
}

/// A banner placement as text: its rows joined by line breaks.
pub open spec fn banner(
    text: Seq<char>,
    prefix: Seq<char>,
    tier: Box,
    ascii_only: bool,
    gild: bool,
) -> Seq<char> {
    joined(banner_rows(text, prefix, tier, ascii_only, gild))
}

/// Draw the frame for one creative. `ascii_only` overrides the purchased
/// impact tier with the plain glyph set. The prefix is promoted into the top
/// border as a masthead; a blank prefix collapses to a solid rule. When
/// `gild` is set, the masthead is wrapped in zero-width gold, after the fill
/// has been counted, so the border keeps its place.
pub fn render(text: &str, prefix: &str, tier: Box, ascii_only: bool, gild: bool) -> (out: String)
    ensures
        out@ == banner(text@, prefix@, tier, ascii_only, gild),
{
    let g = glyphs(tier, ascii_only);
    let span = WIDTH + 2;
    let ghost rows = banner_rows(text@, prefix@, tier, ascii_only, gild);
    let top = top_border(prefix, g[0], g[1], g[4], span, gild);
    let mut out = chars_of(top.as_str());
    let cs = chars_of(text);
    let lines = wrap_chars(&cs, WIDTH);
    let ghost lv = lines@.map_values(|l: Vec<char>| l@);
    assert(rows.take(1) =~= seq![rows[0]]);
    let mut k: usize = 0;
    while k < lines.len()
        invariant
            k <= lines@.len(),
            lv == lines@.map_values(|l: Vec<char>| l@),
            lv == wrapped(text@, WIDTH as nat),
            g@ == glyph_set(tier, ascii_only),
            rows == banner_rows(text@, prefix@, tier, ascii_only, gild),
            rows.len() == lines@.len() + 2,
            out@ == joined(rows.take(k + 1)),
        decreases lines@.len() - k,
    {
        let line = &lines[k];
        let ghost before = out@;
        out.push('\n');
        out.push(g[5]);
        out.push(' ');
        push_all(&mut out, line);
        if line.len() < WIDTH {
            push_run(&mut out, ' ', WIDTH - line.len());
        }
        out.push(' ');
        out.push(g[5]);
        assert(rows[k + 1] == body_row(lv[k as int], g@[5]));
        assert(out@ =~= before + seq!['\n'] + rows[k + 1]);
        assert(rows.take(k + 2).drop_last() =~= rows.take(k + 1));
        k = k + 1;
    }
    let ghost before = out@;
    out.push('\n');
    out.push(g[2]);
    push_run(&mut out, g[4], span);
    out.push(g[3]);
    assert(out@ =~= before + seq!['\n'] + rows.last());
    assert(rows.take(rows.len() as int).drop_last() =~= rows.take(lines@.len() + 1 as int));
    assert(rows.take(rows.len() as int) =~= rows);
    string_of(&out)
}

/// Every state reached while laying out words keeps its lines within
/// `width`: finished lines hold between one and `width` characters, and the
/// line being filled at most `width`.
pub open spec fn lines_fit(lines: Seq<Seq<char>>, cur: Seq<char>, width: nat) -> bool {
    &&& forall|i: int| 0 <= i < lines.len() ==> 0 < #[trigger] lines[i].len() <= width
    &&& cur.len() <= width
}

proof fn lemma_wrap_step_fits(lines: Seq<Seq<char>>, cur: Seq<char>, w: Seq<char>, width: nat)
    requires
        width > 0,
        lines_fit(lines, cur, width),
    ensures
        lines_fit(wrap_step(lines, cur, w, width).0, wrap_step(lines, cur, w, width).1, width),
    decreases w.len(),
{
    if w.len() > width {
        let closed = if cur.len() > 0 {
            lines.push(cur)
        } else {
            lines
        };
        let next = closed.push(w.take(width as int));
        assert forall|i: int| 0 <= i < next.len() implies 0 < #[trigger] next[i].len() <= width by {
            if i < lines.len() {
                assert(next[i] == lines[i]);
            }
        }
        lemma_wrap_step_fits(next, seq![], w.skip(width as int), width);
    } else {
        let candidate = if cur.len() == 0 {
            w
        } else {
            cur + seq![' '] + w
        };
        if candidate.len() > width {
            let next = lines.push(cur);
            assert forall|i: int| 0 <= i < next.len() implies 0 < #[trigger] next[i].len()
                <= width by {
                if i < lines.len() {
                    assert(next[i] == lines[i]);
                }
            }
        }
    }
}

proof fn lemma_wrap_words_fit(ws: Seq<Seq<char>>, width: nat)
    requires
        width > 0,
    ensures
        lines_fit(wrap_words(ws, width).0, wrap_words(ws, width).1, width),
    decreases ws.len(),
{
    if ws.len() > 0 {
        lemma_wrap_words_fit(ws.drop_last(), width);
        let (lines, cur) = wrap_words(ws.drop_last(), width);
        lemma_wrap_step_fits(lines, cur, ws.last(), width);
    }
}

/// Word wrapping never overflows the frame: for a positive width there is
/// at least one line, and every line holds at most `width` characters; a
/// line is blank only when it is the single line of a blank text.
pub proof fn lemma_wrapped_fits(text: Seq<char>, width: nat)
    requires
        width > 0,
    ensures
        wrapped(text, width).len() >= 1,
        forall|i: int|
            0 <= i < wrapped(text, width).len() ==> #[trigger] wrapped(text, width)[i].len()
                <= width,
        wrapped(text, width) == seq![Seq::<char>::empty()] || forall|i: int|
            0 <= i < wrapped(text, width).len() ==> #[trigger] wrapped(text, width)[i].len() > 0,
{
    lemma_wrap_words_fit(words(text), width);
    let (lines, cur) = wrap_words(words(text), width);
    let all = if cur.len() > 0 {
        lines.push(cur)
    } else {
        lines
    };
    assert forall|i: int| 0 <= i < all.len() implies 0 < #[trigger] all[i].len() <= width by {
        if i < lines.len() {
            assert(all[i] == lines[i]);
        }
    }
}

/// A frame's rows, from the second on, each preceded by a line break.
pub open spec fn trailing(rows: Seq<Seq<char>>) -> Seq<char>
    decreases rows.len(),
{
    if rows.len() == 0 {
        seq![]
    } else {
        trailing(rows.drop_last()) + seq!['\n'] + rows.last()
    }
}

proof fn lemma_joined_first(rows: Seq<Seq<char>>)
    requires
        rows.len() >= 1,
    ensures
        joined(rows) == rows[0] + trailing(rows.skip(1)),
    decreases rows.len(),
{
    if rows.len() == 1 {
        assert(rows.skip(1) =~= Seq::<Seq<char>>::empty());
        assert(rows[0] + trailing(rows.skip(1)) =~= rows[0]);
    } else {
        lemma_joined_first(rows.drop_last());
        assert(rows.skip(1).drop_last() =~= rows.drop_last().skip(1));
        assert(rows.skip(1).last() == rows.last());
        assert(joined(rows) =~= rows[0] + trailing(rows.skip(1)));
    }
}

/// The frame stays on grid: when the masthead fits the top border (the
/// prefix is at most `WIDTH - 1` characters) and the tag is not gilded,
/// every row of a banner has exactly `WIDTH + 4` characters.
pub proof fn lemma_rows_same_width(
    text: Seq<char>,
    prefix: Seq<char>,
    tier: Box,
    ascii_only: bool,
)
    requires
        prefix.len() + 3 <= WIDTH + 2,
    ensures
        forall|i: int|
            0 <= i < banner_rows(text, prefix, tier, ascii_only, false).len() ==> (#[trigger] banner_rows(
                text,
                prefix,
                tier,
                ascii_only,
                false,
            )[i]).len() == WIDTH + 4,
{
    let rows = banner_rows(text, prefix, tier, ascii_only, false);
    let lines = wrapped(text, WIDTH as nat);
    lemma_wrapped_fits(text, WIDTH as nat);
    let g = glyph_set(tier, ascii_only);
    assert forall|i: int| 0 <= i < rows.len() implies (#[trigger] rows[i]).len() == WIDTH + 4 by {
        if i == 0 {
        } else if i < rows.len() - 1 {
            assert(rows[i] == body_row(lines[i - 1], g[5]));
            assert(lines[i - 1].len() <= WIDTH);
        }
    }
}

/// Gilding only inserts zero-width escapes around the masthead: with a
/// blank prefix the gilded banner is the plain one, and otherwise the two
/// differ exactly by the gold escape before the prefix and the reset after
/// it, so that stripped of the escapes the gilded frame is the plain frame.
pub proof fn lemma_gilding_is_zero_width(
    text: Seq<char>,
    prefix: Seq<char>,
    tier: Box,
    ascii_only: bool,
)
    ensures
        prefix.len() == 0 ==> banner(text, prefix, tier, ascii_only, true) == banner(
            text,
            prefix,
            tier,
            ascii_only,
            false,
        ),
        prefix.len() > 0 ==> exists|before: Seq<char>, after: Seq<char>|
            {
                &&& banner(text, prefix, tier, ascii_only, false) == before + prefix + after
                &&& banner(text, prefix, tier, ascii_only, true) == before + crate::color::gold() + prefix
                    + crate::color::reset() + after
            },
{
    let plain = banner_rows(text, prefix, tier, ascii_only, false);
    let gold_rows = banner_rows(text, prefix, tier, ascii_only, true);
    lemma_joined_first(plain);
    lemma_joined_first(gold_rows);
    assert(plain.skip(1) =~= gold_rows.skip(1));
    let g = glyph_set(tier, ascii_only);
    let span = (WIDTH + 2) as nat;
    if prefix.len() > 0 {
        let fill: int = span - (1 + prefix.len() + 2);
        let fill_n: nat = if fill > 0 {
            fill as nat
        } else {
            0
        };
        let before = seq![g[0], g[4], ' '];
        let mid = seq![' '] + run(g[4], fill_n) + seq![g[1]];
        let tail = trailing(plain.skip(1));
        assert(plain[0] == top_row(prefix, g[0], g[1], g[4], span, false));
        assert(gold_rows[0] == top_row(prefix, g[0], g[1], g[4], span, true));
        assert(plain[0] =~= before + prefix + mid);
        assert(gold_rows[0] =~= before + crate::color::gold() + prefix + crate::color::reset() + mid);
        let after = mid + tail;
        assert(before + prefix + mid + tail =~= before + prefix + after);
        assert(before + crate::color::gold() + prefix + crate::color::reset() + mid + tail
            =~= before + crate::color::gold() + prefix + crate::color::reset() + after);
    } else {
        assert(plain[0] == gold_rows[0]);
    }
}

/// The characters of `s` that are not white space, in order.
pub open spec fn nonblank(s: Seq<char>) -> Seq<char>
    decreases s.len(),
{
    if s.len() == 0 {
        seq![]
    } else if crate::chars::white_space(s.last()) {
        nonblank(s.drop_last())
    } else {
        nonblank(s.drop_last()).push(s.last())
    }
}

/// `ls` laid end to end.
pub open spec fn concat(ls: Seq<Seq<char>>) -> Seq<char>
    decreases ls.len(),
{
    if ls.len() == 0 {
        seq![]
    } else {
        concat(ls.drop_last()) + ls.last()
    }
}

/// `s` holds no white space.
pub open spec fn solid(s: Seq<char>) -> bool {
    forall|i: int| 0 <= i < s.len() ==> !crate::chars::white_space(#[trigger] s[i])
}

proof fn lemma_nonblank_concat(a: Seq<char>, b: Seq<char>)
    ensures
        nonblank(a + b) == nonblank(a) + nonblank(b),
    decreases b.len(),
{
    if b.len() == 0 {
        assert(a + b =~= a);
        assert(nonblank(a) + nonblank(b) =~= nonblank(a));
    } else {
        lemma_nonblank_concat(a, b.drop_last());
        assert((a + b).drop_last() =~= a + b.drop_last());
        assert((a + b).last() == b.last());
        if !crate::chars::white_space(b.last()) {
            assert(nonblank(a) + nonblank(b) =~= (nonblank(a) + nonblank(b.drop_last())).push(
                b.last(),
            ));
        }
    }
}

proof fn lemma_nonblank_solid(s: Seq<char>)
    requires
        solid(s),
    ensures
        nonblank(s) == s,
    decreases s.len(),
{
    if s.len() > 0 {
        assert(solid(s.drop_last()));
        lemma_nonblank_solid(s.drop_last());
        assert(s.drop_last().push(s.last()) =~= s);
    }
}

proof fn lemma_concat_push(ls: Seq<Seq<char>>, l: Seq<char>)
    ensures
        concat(ls.push(l)) == concat(ls) + l,
{
    assert(ls.push(l).drop_last() =~= ls);
}

proof fn lemma_words_content(s: Seq<char>)
    ensures
        concat(words(s)) == nonblank(s),
        forall|i: int| 0 <= i < words(s).len() ==> solid(#[trigger] words(s)[i]),
        (s.len() > 0 && !crate::chars::white_space(s.last())) ==> words(s).len() > 0,
    decreases s.len(),
{
    if s.len() > 0 {
        let d = s.drop_last();
        lemma_words_content(d);
        let before = words(d);
        let c = s.last();
        if crate::chars::white_space(c) {
        } else if s.len() >= 2 && !crate::chars::white_space(s[s.len() - 2]) {
            assert(d.last() == s[s.len() - 2]);
            let n = before.len() - 1;
            let grown = before.last().push(c);
            let after = before.update(n, grown);
            assert(after.drop_last() =~= before.drop_last());
            assert(before.drop_last().push(before.last()) =~= before);
            lemma_concat_push(before.drop_last(), before.last());
            assert(concat(after) == concat(before.drop_last()) + grown);
            assert(concat(after) =~= concat(before).push(c));
            assert forall|i: int| 0 <= i < after.len() implies solid(#[trigger] after[i]) by {
                if i < n {
                    assert(after[i] == before[i]);
                } else {
                    assert(solid(before[n]));
                    assert forall|k: int| 0 <= k < grown.len() implies !crate::chars::white_space(
                        #[trigger] grown[k],
                    ) by {
                        if k < before[n].len() {
                            assert(grown[k] == before[n][k]);
                        }
                    }
                }
            }
        } else {
            let after = before.push(seq![c]);
            lemma_concat_push(before, seq![c]);
            assert(concat(after) =~= concat(before).push(c));
            assert forall|i: int| 0 <= i < after.len() implies solid(#[trigger] after[i]) by {
                if i < before.len() {
                    assert(after[i] == before[i]);
                }
            }
        }
    }
}

/// What a layout state holds: its finished lines, then the line being
/// filled.
pub open spec fn laid_out(lines: Seq<Seq<char>>, cur: Seq<char>) -> Seq<char> {
    concat(lines) + cur
}

proof fn lemma_wrap_step_content(lines: Seq<Seq<char>>, cur: Seq<char>, w: Seq<char>, width: nat)
    requires
        solid(w),
    ensures
        nonblank(laid_out(wrap_step(lines, cur, w, width).0, wrap_step(lines, cur, w, width).1))
            == nonblank(laid_out(lines, cur)) + w,
    decreases w.len(),
{
    if width > 0 && w.len() > width {
        let closed = if cur.len() > 0 {
            lines.push(cur)
        } else {
            lines
        };
        lemma_concat_push(lines, cur);
        assert(concat(closed) =~= laid_out(lines, cur));
        let piece = w.take(width as int);
        let rest = w.skip(width as int);
        let next = closed.push(piece);
        assert(solid(rest)) by {
            assert forall|k: int| 0 <= k < rest.len() implies !crate::chars::white_space(
                #[trigger] rest[k],
            ) by {
                assert(rest[k] == w[k + width]);
            }
        }
        assert(solid(piece)) by {
            assert forall|k: int| 0 <= k < piece.len() implies !crate::chars::white_space(
                #[trigger] piece[k],
            ) by {
                assert(piece[k] == w[k]);
            }
        }
        lemma_wrap_step_content(next, seq![], rest, width);
        lemma_concat_push(closed, piece);
        assert(laid_out(next, seq![]) =~= laid_out(lines, cur) + piece);
        lemma_nonblank_concat(laid_out(lines, cur), piece);
        lemma_nonblank_solid(piece);
        assert(piece + rest =~= w);
    } else {
        lemma_nonblank_solid(w);
        let candidate = if cur.len() == 0 {
            w
        } else {
            cur + seq![' '] + w
        };
        if candidate.len() > width {
            lemma_concat_push(lines, cur);
            assert(laid_out(lines.push(cur), w) =~= laid_out(lines, cur) + w);
            lemma_nonblank_concat(laid_out(lines, cur), w);
        } else if cur.len() == 0 {
            assert(laid_out(lines, candidate) =~= laid_out(lines, cur) + w);
            lemma_nonblank_concat(laid_out(lines, cur), w);
        } else {
            assert(laid_out(lines, candidate) =~= (laid_out(lines, cur) + seq![' ']) + w);
            lemma_nonblank_concat(laid_out(lines, cur) + seq![' '], w);
            lemma_nonblank_concat(laid_out(lines, cur), seq![' ']);
            assert(seq![' '].drop_last() =~= Seq::<char>::empty());
            assert(nonblank(seq![' ']) == nonblank(Seq::<char>::empty()));
            assert(nonblank(laid_out(lines, cur)) + nonblank(seq![' ']) =~= nonblank(
                laid_out(lines, cur),
            ));
        }
    }
}

proof fn lemma_wrap_words_content(ws: Seq<Seq<char>>, width: nat)
    requires
        forall|i: int| 0 <= i < ws.len() ==> solid(#[trigger] ws[i]),
    ensures
        nonblank(laid_out(wrap_words(ws, width).0, wrap_words(ws, width).1)) == concat(ws),
    decreases ws.len(),
{
    if ws.len() == 0 {
        assert(laid_out(seq![], seq![]) =~= Seq::<char>::empty());
    } else {
        lemma_wrap_words_content(ws.drop_last(), width);
        let (lines, cur) = wrap_words(ws.drop_last(), width);
        assert(solid(ws[ws.len() - 1]));
        lemma_wrap_step_content(lines, cur, ws.last(), width);
    }
}

/// Wrapping loses no part of the creative: the characters of the wrapped
/// lines that are not white space are exactly those of the text, in order.
/// A word too long for the frame is broken, never cut short.
pub proof fn lemma_wrapped_keeps_every_character(text: Seq<char>, width: nat)
    ensures
        nonblank(concat(wrapped(text, width))) == nonblank(text),
{
    lemma_words_content(text);
    lemma_wrap_words_content(words(text), width);
    let (lines, cur) = wrap_words(words(text), width);
    let all = if cur.len() > 0 {
        lines.push(cur)
    } else {
        lines
    };
    lemma_concat_push(lines, cur);
    assert(concat(all) =~= laid_out(lines, cur));
    if all.len() == 0 {
        assert(concat(all) =~= Seq::<char>::empty());
        let blank: Seq<Seq<char>> = seq![Seq::<char>::empty()];
        lemma_concat_push(Seq::<Seq<char>>::empty(), Seq::<char>::empty());
        assert(blank =~= Seq::<Seq<char>>::empty().push(Seq::<char>::empty()));
        assert(concat(blank) =~= Seq::<char>::empty());
    }
}

/// `s` holds no escape character (`ESC`, `\x1b`).
pub open spec fn escape_free(s: Seq<char>) -> bool {
    forall|i: int| 0 <= i < s.len() ==> #[trigger] s[i] != '\x1b'
}

/// Every sequence of `ls` is escape-free.
pub open spec fn all_escape_free(ls: Seq<Seq<char>>) -> bool {
    forall|i: int| 0 <= i < ls.len() ==> escape_free(#[trigger] ls[i])
}

/// `s` with every gold escape and every reset removed, read left to right.
pub open spec fn strip_escapes(s: Seq<char>) -> Seq<char>
    decreases s.len(),
{
    if s.len() == 0 {
        seq![]
    } else if s.len() >= 11 && s.take(11) == crate::color::gold() {
        strip_escapes(s.skip(11))
    } else if s.len() >= 4 && s.take(4) == crate::color::reset() {
        strip_escapes(s.skip(4))
    } else {
        seq![s[0]] + strip_escapes(s.skip(1))
    }
}

proof fn lemma_strip_free_prefix(a: Seq<char>, b: Seq<char>)
    requires
        escape_free(a),
    ensures
        strip_escapes(a + b) == a + strip_escapes(b),
    decreases a.len(),
{
    if a.len() == 0 {
        assert(a + b =~= b);
        assert(a + strip_escapes(b) =~= strip_escapes(b));
    } else {
        let ab = a + b;
        assert(ab[0] == a[0]);
        assert(a[0] != '\x1b');
        if ab.len() >= 11 {
            assert(ab.take(11)[0] != crate::color::gold()[0]);
        }
        if ab.len() >= 4 {
            assert(ab.take(4)[0] != crate::color::reset()[0]);
        }
        let rest = a.skip(1);
        assert(escape_free(rest)) by {
            assert forall|i: int| 0 <= i < rest.len() implies #[trigger] rest[i] != '\x1b' by {
                assert(rest[i] == a[i + 1]);
            }
        }
        lemma_strip_free_prefix(rest, b);
        assert(ab.skip(1) =~= rest + b);
        assert(seq![a[0]] + (rest + strip_escapes(b)) =~= a + strip_escapes(b));
    }
}

proof fn lemma_strip_gold(b: Seq<char>)
    ensures
        strip_escapes(crate::color::gold() + b) == strip_escapes(b),
{
    let s = crate::color::gold() + b;
    assert(s.take(11) =~= crate::color::gold());
    assert(s.skip(11) =~= b);
}

proof fn lemma_strip_reset(b: Seq<char>)
    ensures
        strip_escapes(crate::color::reset() + b) == strip_escapes(b),
{
    let s = crate::color::reset() + b;
    if s.len() >= 11 {
        assert(s.take(11)[2] == '0');
        assert(crate::color::gold()[2] == '3');
    }
    assert(s.take(4) =~= crate::color::reset());
    assert(s.skip(4) =~= b);
}

proof fn lemma_concat_free(a: Seq<char>, b: Seq<char>)
    requires
        escape_free(a),
        escape_free(b),
    ensures
        escape_free(a + b),
{
    assert forall|i: int| 0 <= i < (a + b).len() implies #[trigger] (a + b)[i] != '\x1b' by {
        if i < a.len() {
            assert((a + b)[i] == a[i]);
        } else {
            assert((a + b)[i] == b[i - a.len()]);
        }
    }
}

proof fn lemma_glyphs_free(tier: Box, ascii_only: bool)
    ensures
        glyph_set(tier, ascii_only).len() == 6,
        forall|i: int| 0 <= i < 6 ==> #[trigger] glyph_set(tier, ascii_only)[i] != '\x1b',
{
}

proof fn lemma_words_free(s: Seq<char>)
    requires
        escape_free(s),
    ensures
        all_escape_free(words(s)),
    decreases s.len(),
{
    if s.len() > 0 {
        let d = s.drop_last();
        assert(escape_free(d)) by {
            assert forall|i: int| 0 <= i < d.len() implies #[trigger] d[i] != '\x1b' by {
                assert(d[i] == s[i]);
            }
        }
        lemma_words_free(d);
        let before = words(d);
        let c = s.last();
        assert(c == s[s.len() - 1]);
        if crate::chars::white_space(c) {
        } else if s.len() >= 2 && !crate::chars::white_space(s[s.len() - 2]) {
            lemma_words_content(d);
            assert(d.last() == s[s.len() - 2]);
            assert(before.len() > 0);
            let n = before.len() - 1;
            let after = words(s);
            assert(after == before.update(n, before.last().push(c)));
            assert forall|i: int| 0 <= i < after.len() implies escape_free(#[trigger] after[i]) by {
                if i != n {
                    assert(after[i] == before[i]);
                } else {
                    lemma_concat_free(before[n], seq![c]);
                    assert(before[n].push(c) =~= before[n] + seq![c]);
                }
            }
        } else {
            let after = words(s);
            assert forall|i: int| 0 <= i < after.len() implies escape_free(#[trigger] after[i]) by {
                if i < before.len() {
                    assert(after[i] == before[i]);
                }
            }
        }
    }
}

proof fn lemma_wrap_step_free(lines: Seq<Seq<char>>, cur: Seq<char>, w: Seq<char>, width: nat)
    requires
        all_escape_free(lines),
        escape_free(cur),
        escape_free(w),
    ensures
        all_escape_free(wrap_step(lines, cur, w, width).0),
        escape_free(wrap_step(lines, cur, w, width).1),
    decreases w.len(),
{
    if width > 0 && w.len() > width {
        let closed = if cur.len() > 0 {
            lines.push(cur)
        } else {
            lines
        };
        let piece = w.take(width as int);
        let rest = w.skip(width as int);
        let next = closed.push(piece);
        assert forall|i: int| 0 <= i < next.len() implies escape_free(#[trigger] next[i]) by {
            if i < lines.len() {
                assert(next[i] == lines[i]);
            } else if i == next.len() - 1 {
                assert forall|k: int| 0 <= k < piece.len() implies #[trigger] piece[k] != '\x1b' by {
                    assert(piece[k] == w[k]);
                }
            }
        }
        assert(escape_free(rest)) by {
            assert forall|k: int| 0 <= k < rest.len() implies #[trigger] rest[k] != '\x1b' by {
                assert(rest[k] == w[k + width]);
            }
        }
        lemma_wrap_step_free(next, seq![], rest, width);
    } else {
        lemma_concat_free(cur, seq![' ']);
        lemma_concat_free(cur + seq![' '], w);
        let next = lines.push(cur);
        assert forall|i: int| 0 <= i < next.len() implies escape_free(#[trigger] next[i]) by {
            if i < lines.len() {
                assert(next[i] == lines[i]);
            }
        }
    }
}

proof fn lemma_wrap_words_free(ws: Seq<Seq<char>>, width: nat)
    requires
        all_escape_free(ws),
    ensures
        all_escape_free(wrap_words(ws, width).0),
        escape_free(wrap_words(ws, width).1),
    decreases ws.len(),
{
    if ws.len() > 0 {
        assert(all_escape_free(ws.drop_last())) by {
            assert forall|i: int| 0 <= i < ws.drop_last().len() implies escape_free(
                #[trigger] ws.drop_last()[i],
            ) by {
                assert(ws.drop_last()[i] == ws[i]);
            }
        }
        lemma_wrap_words_free(ws.drop_last(), width);
        let (lines, cur) = wrap_words(ws.drop_last(), width);
        assert(escape_free(ws[ws.len() - 1]));
        lemma_wrap_step_free(lines, cur, ws.last(), width);
    }
}

proof fn lemma_run_free(c: char, n: nat)
    requires
        c != '\x1b',
    ensures
        escape_free(run(c, n)),
{
}

proof fn lemma_rows_free(text: Seq<char>, prefix: Seq<char>, tier: Box, ascii_only: bool)
    requires
        escape_free(text),
        escape_free(prefix),
    ensures
        all_escape_free(banner_rows(text, prefix, tier, ascii_only, false)),
{
    let rows = banner_rows(text, prefix, tier, ascii_only, false);
    let g = glyph_set(tier, ascii_only);
    let span = (WIDTH + 2) as nat;
    lemma_glyphs_free(tier, ascii_only);
    lemma_words_free(text);
    lemma_wrap_words_free(words(text), WIDTH as nat);
    let lines = wrapped(text, WIDTH as nat);
    let (wl, wc) = wrap_words(words(text), WIDTH as nat);
    assert(all_escape_free(lines)) by {
        let all = if wc.len() > 0 {
            wl.push(wc)
        } else {
            wl
        };
        assert forall|i: int| 0 <= i < all.len() implies escape_free(#[trigger] all[i]) by {
            if i < wl.len() {
                assert(all[i] == wl[i]);
            }
        }
        if all.len() == 0 {
            assert(escape_free(Seq::<char>::empty()));
            assert(lines[0] == Seq::<char>::empty());
        }
    }
    assert forall|i: int| 0 <= i < rows.len() implies escape_free(#[trigger] rows[i]) by {
        if i == 0 {
            lemma_run_free(g[4], span);
            if prefix.len() == 0 {
                lemma_concat_free(seq![g[0]], run(g[4], span));
                lemma_concat_free(seq![g[0]] + run(g[4], span), seq![g[1]]);
            } else {
                let fill: int = span - (1 + prefix.len() + 2);
                let fill_n: nat = if fill > 0 {
                    fill as nat
                } else {
                    0
                };
                lemma_run_free(g[4], fill_n);
                lemma_concat_free(seq![g[0], g[4], ' '], prefix);
                lemma_concat_free(seq![g[0], g[4], ' '] + prefix, seq![' ']);
                lemma_concat_free(seq![g[0], g[4], ' '] + prefix + seq![' '], run(g[4], fill_n));
                lemma_concat_free(
                    seq![g[0], g[4], ' '] + prefix + seq![' '] + run(g[4], fill_n),
                    seq![g[1]],
                );
            }
        } else if i < rows.len() - 1 {
            let line = lines[i - 1];
            assert(escape_free(line));
            assert(rows[i] == body_row(line, g[5]));
            if line.len() < WIDTH {
                lemma_run_free(' ', (WIDTH - line.len()) as nat);
                lemma_concat_free(line, run(' ', (WIDTH - line.len()) as nat));
            }
            let p = padded(line, WIDTH as nat);
            lemma_concat_free(seq![g[5], ' '], p);
            lemma_concat_free(seq![g[5], ' '] + p, seq![' ', g[5]]);
        } else {
            lemma_run_free(g[4], span);
            lemma_concat_free(seq![g[2]], run(g[4], span));
            lemma_concat_free(seq![g[2]] + run(g[4], span), seq![g[3]]);
        }
    }
}

proof fn lemma_trailing_free(rows: Seq<Seq<char>>)
    requires
        all_escape_free(rows),
    ensures
        escape_free(trailing(rows)),
    decreases rows.len(),
{
    if rows.len() > 0 {
        assert(all_escape_free(rows.drop_last())) by {
            assert forall|i: int| 0 <= i < rows.drop_last().len() implies escape_free(
                #[trigger] rows.drop_last()[i],
            ) by {
                assert(rows.drop_last()[i] == rows[i]);
            }
        }
        lemma_trailing_free(rows.drop_last());
        lemma_concat_free(trailing(rows.drop_last()), seq!['\n']);
        assert(escape_free(rows[rows.len() - 1]));
        lemma_concat_free(trailing(rows.drop_last()) + seq!['\n'], rows.last());
    }
}

/// Stripped of its escapes, a gilded banner is the plain banner, whenever
/// the creative and the tag hold no escape character themselves.
pub proof fn lemma_gilding_strips_to_plain(
    text: Seq<char>,
    prefix: Seq<char>,
    tier: Box,
    ascii_only: bool,
)
    requires
        escape_free(text),
        escape_free(prefix),
    ensures
        strip_escapes(banner(text, prefix, tier, ascii_only, true)) == banner(
            text,
            prefix,
            tier,
            ascii_only,
            false,
        ),
{
    let plain = banner_rows(text, prefix, tier, ascii_only, false);
    let gold_rows = banner_rows(text, prefix, tier, ascii_only, true);
    lemma_rows_free(text, prefix, tier, ascii_only);
    lemma_joined_first(plain);
    lemma_joined_first(gold_rows);
    assert(plain.skip(1) =~= gold_rows.skip(1));
    let tail = trailing(plain.skip(1));
    assert(all_escape_free(plain.skip(1))) by {
        assert forall|i: int| 0 <= i < plain.skip(1).len() implies escape_free(
            #[trigger] plain.skip(1)[i],
        ) by {
            assert(plain.skip(1)[i] == plain[i + 1]);
        }
    }
    lemma_trailing_free(plain.skip(1));
    assert(escape_free(plain[0]));
    let g = glyph_set(tier, ascii_only);
    lemma_glyphs_free(tier, ascii_only);
    let span = (WIDTH + 2) as nat;
    if prefix.len() > 0 {
        let fill: int = span - (1 + prefix.len() + 2);
        let fill_n: nat = if fill > 0 {
            fill as nat
        } else {
            0
        };
        let before = seq![g[0], g[4], ' '];
        let mid = seq![' '] + run(g[4], fill_n) + seq![g[1]];
        assert(plain[0] == top_row(prefix, g[0], g[1], g[4], span, false));
        assert(gold_rows[0] == top_row(prefix, g[0], g[1], g[4], span, true));
        assert(plain[0] =~= before + prefix + mid);
        let after = mid + tail;
        let gold = crate::color::gold();
        let reset = crate::color::reset();
        assert(gold_rows[0] + tail =~= before + (gold + (prefix + (reset + after))));
        assert(plain[0] + tail =~= before + (prefix + after));
        assert(escape_free(before));
        assert(escape_free(mid)) by {
            lemma_run_free(g[4], fill_n);
            lemma_concat_free(seq![' '], run(g[4], fill_n));
            lemma_concat_free(seq![' '] + run(g[4], fill_n), seq![g[1]]);
        }
        lemma_concat_free(mid, tail);
        lemma_strip_free_prefix(after, Seq::<char>::empty());
        assert(after + Seq::<char>::empty() =~= after);
        lemma_strip_reset(after);
        lemma_strip_free_prefix(prefix, reset + after);
        lemma_strip_gold(prefix + (reset + after));
        lemma_strip_free_prefix(before, gold + (prefix + (reset + after)));
    } else {
        assert(plain[0] == gold_rows[0]);
        lemma_concat_free(plain[0], tail);
        lemma_strip_free_prefix(plain[0] + tail, Seq::<char>::empty());
        assert(plain[0] + tail + Seq::<char>::empty() =~= plain[0] + tail);
    }
}

/// Each tier draws the frame it is sold as: `┌ ┐ └ ┘ ─ │` for `Light`,
/// `┏ ┓ ┗ ┛ ━ ┃` for `Heavy`, `╔ ╗ ╚ ╝ ═ ║` for `Double`, and `+ + + + - |`
/// for every tier when `ascii_only`. The banner opens with the top-left
/// corner; the top row ends with the top-right corner; every body row starts
/// and ends with the vertical bar and is `WIDTH + 4` characters; and the
/// banner ends with the bottom row: the bottom-left corner, `WIDTH + 2`
/// horizontals, then the bottom-right corner.
pub proof fn lemma_frame_glyphs(
    text: Seq<char>,
    prefix: Seq<char>,
    tier: Box,
    ascii_only: bool,
    gild: bool,
)
    ensures
        ({
            let sold: Seq<char> = if ascii_only {
                seq!['+', '+', '+', '+', '-', '|']
            } else {
                match tier {
                    Box::Light => seq!['┌', '┐', '└', '┘', '─', '│'],
                    Box::Heavy => seq!['┏', '┓', '┗', '┛', '━', '┃'],
                    Box::Double => seq!['╔', '╗', '╚', '╝', '═', '║'],
                }
            };
            let b = banner(text, prefix, tier, ascii_only, gild);
            let rows = banner_rows(text, prefix, tier, ascii_only, gild);
            &&& rows.len() >= 3
            &&& b[0] == sold[0]
            &&& rows[0].last() == sold[1]
            &&& b.len() >= WIDTH + 4
            &&& b.skip(b.len() - (WIDTH + 4)) == seq![sold[2]] + Seq::new(
                (WIDTH + 2) as nat,
                |i: int| sold[4],
            ) + seq![sold[3]]
            &&& forall|i: int|
                0 < i < rows.len() - 1 ==> {
                    &&& (#[trigger] rows[i]).len() == WIDTH + 4
                    &&& rows[i][0] == sold[5]
                    &&& rows[i].last() == sold[5]
                }
        }),
{
    let rows = banner_rows(text, prefix, tier, ascii_only, gild);
    let lines = wrapped(text, WIDTH as nat);
    let g = glyph_set(tier, ascii_only);
    lemma_wrapped_fits(text, WIDTH as nat);
    let span = (WIDTH + 2) as nat;
    let bottom = seq![g[2]] + run(g[4], span) + seq![g[3]];
    assert(rows.len() == lines.len() + 2);
    assert(rows.last() == bottom);
    assert(bottom =~= seq![g[2]] + Seq::new(span, |i: int| g[4]) + seq![g[3]]);
    lemma_joined_first(rows);
    assert(rows[0].len() > 0);
    let b = joined(rows);
    assert(b[0] == rows[0][0]);
    assert(rows.drop_last().len() >= 1);
    assert(b == joined(rows.drop_last()) + seq!['\n'] + bottom);
    assert(b.skip(b.len() - (WIDTH + 4)) =~= bottom);
    assert forall|i: int| 0 < i < rows.len() - 1 implies {
        &&& (#[trigger] rows[i]).len() == WIDTH + 4
        &&& rows[i][0] == g[5]
        &&& rows[i].last() == g[5]
    } by {
        assert(rows[i] == body_row(lines[i - 1], g[5]));
        assert(lines[i - 1].len() <= WIDTH);
    }
}

/// `ws` joined by single spaces.
pub open spec fn spaced(ws: Seq<Seq<char>>) -> Seq<char>
    decreases ws.len(),
{
    if ws.len() == 0 {
        seq![]
    } else if ws.len() == 1 {
        ws[0]
    } else {
        spaced(ws.drop_last()) + seq![' '] + ws.last()
    }
}

/// Every white-space character of `s` is a plain space, no two of them are
/// adjacent, and `s` does not open with one.
pub open spec fn single_spaced(s: Seq<char>) -> bool {
    &&& forall|i: int| 0 <= i < s.len() && crate::chars::white_space(#[trigger] s[i]) ==> s[i] == ' '
    &&& forall|i: int|
        0 <= i < s.len() - 1 ==> !(crate::chars::white_space(#[trigger] s[i])
            && crate::chars::white_space(s[i + 1]))
    &&& s.len() > 0 ==> !crate::chars::white_space(s[0])
}

proof fn lemma_spaced_grow(ws: Seq<Seq<char>>, c: char)
    requires
        ws.len() >= 1,
    ensures
        spaced(ws.update(ws.len() - 1, ws.last().push(c))) == spaced(ws).push(c),
{
    let grown = ws.update(ws.len() - 1, ws.last().push(c));
    if ws.len() >= 2 {
        assert(grown.drop_last() =~= ws.drop_last());
    }
}

proof fn lemma_spaced_push(ws: Seq<Seq<char>>, w: Seq<char>)
    requires
        ws.len() >= 1,
    ensures
        spaced(ws.push(w)) == spaced(ws) + seq![' '] + w,
{
    assert(ws.push(w).drop_last() =~= ws);
}

proof fn lemma_words_of_single_spaced(s: Seq<char>)
    requires
        single_spaced(s),
    ensures
        forall|i: int| 0 <= i < words(s).len() ==> (#[trigger] words(s)[i]).len() > 0,
        s.len() > 0 && !crate::chars::white_space(s.last()) ==> spaced(words(s)) == s,
        s.len() > 0 && crate::chars::white_space(s.last()) ==> spaced(words(s)) + seq![' '] == s
            && words(s).len() > 0,
    decreases s.len(),
{
    if s.len() > 0 {
        let d = s.drop_last();
        let c = s.last();
        assert(single_spaced(d)) by {
            assert forall|i: int| 0 <= i < d.len() && crate::chars::white_space(
                #[trigger] d[i],
            ) implies d[i] == ' ' by {
                assert(d[i] == s[i]);
            }
            assert forall|i: int| 0 <= i < d.len() - 1 implies !(crate::chars::white_space(
                #[trigger] d[i],
            ) && crate::chars::white_space(d[i + 1])) by {
                assert(d[i] == s[i]);
                assert(d[i + 1] == s[i + 1]);
            }
            if d.len() > 0 {
                assert(d[0] == s[0]);
            }
        }
        lemma_words_of_single_spaced(d);
        lemma_words_content(d);
        let before = words(d);
        assert(c == s[s.len() - 1]);
        if crate::chars::white_space(c) {
            assert(s.len() >= 2);
            assert(!crate::chars::white_space(s[s.len() - 2]));
            assert(d.last() == s[s.len() - 2]);
            assert(c == ' ');
            assert(d.push(' ') =~= s);
        } else if s.len() >= 2 && !crate::chars::white_space(s[s.len() - 2]) {
            assert(d.last() == s[s.len() - 2]);
            let after = words(s);
            lemma_spaced_grow(before, c);
            assert(d.push(c) =~= s);
            assert forall|i: int| 0 <= i < after.len() implies (#[trigger] after[i]).len() > 0 by {
                if i < before.len() - 1 {
                    assert(after[i] == before[i]);
                }
            }
        } else {
            let after = words(s);
            assert(after == before.push(seq![c]));
            assert forall|i: int| 0 <= i < after.len() implies (#[trigger] after[i]).len() > 0 by {
                if i < before.len() {
                    assert(after[i] == before[i]);
                }
            }
            if d.len() == 0 {
                assert(before =~= Seq::<Seq<char>>::empty());
                assert(after =~= seq![seq![c]]);
                assert(s =~= seq![c]);
            } else {
                assert(d.last() == s[s.len() - 2]);
                lemma_spaced_push(before, seq![c]);
                assert(spaced(before) + seq![' '] + seq![c] =~= (spaced(before) + seq![' ']).push(c));
                assert(d.push(c) =~= s);
            }
        }
    }
}

proof fn lemma_spaced_len(ws: Seq<Seq<char>>)
    ensures
        ws.len() >= 1 ==> spaced(ws).len() >= spaced(ws.drop_last()).len(),
        ws.len() >= 1 ==> spaced(ws).len() >= ws.last().len(),
{
}

proof fn lemma_short_words_fill_one_line(ws: Seq<Seq<char>>, width: nat)
    requires
        width > 0,
        forall|i: int| 0 <= i < ws.len() ==> (#[trigger] ws[i]).len() > 0,
        spaced(ws).len() <= width,
    ensures
        wrap_words(ws, width) == (Seq::<Seq<char>>::empty(), spaced(ws)),
    decreases ws.len(),
{
    if ws.len() > 0 {
        let d = ws.drop_last();
        assert forall|i: int| 0 <= i < d.len() implies (#[trigger] d[i]).len() > 0 by {
            assert(d[i] == ws[i]);
        }
        lemma_spaced_len(ws);
        lemma_short_words_fill_one_line(d, width);
        let w = ws.last();
        assert(w.len() > 0);
        if ws.len() == 1 {
            assert(d =~= Seq::<Seq<char>>::empty());
            assert(spaced(d) =~= Seq::<char>::empty());
        } else {
            assert(d[0].len() > 0);
            assert(spaced(d).len() > 0) by {
                lemma_spaced_nonempty(d);
            }
        }
    }
}

proof fn lemma_spaced_nonempty(ws: Seq<Seq<char>>)
    requires
        ws.len() >= 1,
        forall|i: int| 0 <= i < ws.len() ==> (#[trigger] ws[i]).len() > 0,
    ensures
        spaced(ws).len() > 0,
    decreases ws.len(),
{
    if ws.len() >= 2 {
        assert(ws.last().len() > 0);
    } else {
        assert(ws[0].len() > 0);
    }
}

/// Words are the maximal runs of characters that are not white space, and
/// wrapping only ever breaks between them: a text that fits in the width,
/// whose white space is single plain spaces and which neither opens nor
/// closes with a space, wraps to one line holding exactly that text.
pub proof fn lemma_fitting_text_wraps_to_itself(text: Seq<char>, width: nat)
    requires
        0 < text.len() <= width,
        single_spaced(text),
        !crate::chars::white_space(text.last()),
    ensures
        wrapped(text, width) == seq![text],
{
    lemma_words_of_single_spaced(text);
    lemma_short_words_fill_one_line(words(text), width);
}

} // verus!

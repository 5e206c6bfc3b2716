//! Gilding of the `[AD]` tag: wrapping it in the 256-color gold escape, and
//! deciding when to do so.

use vstd::prelude::*;

use crate::chars::{chars_of, normalize, same_chars, string_of};

verus! {

/// SGR 256-color gold (xterm 214): `ESC [ 38 ; 5 ; 214 m`.
pub open spec fn gold() -> Seq<char> {
    seq!['\x1b', '[', '3', '8', ';', '5', ';', '2', '1', '4', 'm']
}

/// The SGR reset: `ESC [ 0 m`.
pub open spec fn reset() -> Seq<char> {
    seq!['\x1b', '[', '0', 'm']
}

/// `text` in gold when `enabled`, otherwise `text` itself.
pub open spec fn gilded(text: Seq<char>, enabled: bool) -> Seq<char> {
    if enabled {
        gold() + text + reset()
    } else {
        text
    }
}

/// When the exchange gilds the `[AD]` tag.
#[derive(Clone, Copy, Debug, PartialEq, Eq, Structural)]
pub enum Color {
    /// Gild only on a real TTY when `NO_COLOR` is unset. The safe default.
    Auto,
    /// Force gold on every surface, overriding `NO_COLOR`.
    Always,
    /// Never gild.
    Never,
}

/// The mode named by a raw setting: `always` or `never` after trimming and
/// ASCII lower-casing; anything else is `Auto`.
pub open spec fn color_named(value: Seq<char>) -> Color {
    let v = crate::chars::normalized(value);
    if v == seq!['a', 'l', 'w', 'a', 'y', 's'] {
        Color::Always
    } else if v == seq!['n', 'e', 'v', 'e', 'r'] {
        Color::Never
    } else {
        Color::Auto
    }
}

/// Whether a mode gilds, given whether `NO_COLOR` leaves color available and
/// whether the sink is a terminal.
pub open spec fn gilds(mode: Color, no_color_unset: bool, is_tty: bool) -> bool {
    match mode {
        Color::Never => false,
        Color::Always => true,
        Color::Auto => no_color_unset && is_tty,
    }
}

impl Default for Color {
    fn default() -> (c: Color)
        ensures
            c == Color::Auto,
    {
        Color::Auto
    }
}

impl Color {
    /// Parse a raw setting. Unrecognized values settle to `Auto`, so that an
    /// invalid setting never forces color onto a sink that cannot render it.
    pub fn from_env_str(value: &str) -> (c: Color)
        ensures
            c == color_named(value@),
    {
        let v = normalize(value);
        if same_chars(&v, &vec!['a', 'l', 'w', 'a', 'y', 's']) {
            Color::Always
        } else if same_chars(&v, &vec!['n', 'e', 'v', 'e', 'r']) {
            Color::Never
        } else {
            Color::Auto
        }
    }
}

/// Gild `text` in gold when `enabled`, otherwise hand it back untouched so
/// the plain path stays identical to the classic line.
pub fn colorize(text: &str, enabled: bool) -> (out: String)
    ensures
        out@ == gilded(text@, enabled),
{
    let t = chars_of(text);
    if enabled {
        let mut out = vec!['\x1b', '[', '3', '8', ';', '5', ';', '2', '1', '4', 'm'];
        let mut k: usize = 0;
        while k < t.len()
            invariant
                k <= t@.len(),
                out@ == gold() + t@.take(k as int),
            decreases t@.len() - k,
        {
            out.push(t[k]);
            assert(t@.take(k + 1) =~= t@.take(k as int).push(t@[k as int]));
            k = k + 1;
        }
        assert(t@.take(t@.len() as int) =~= t@);
        out.push('\x1b');
        out.push('[');
        out.push('0');
        out.push('m');
        assert(out@ =~= gold() + t@ + reset());
        string_of(&out)
    } else {
        string_of(&t)
    }
}

/// Whether an emission is gilded, against the signals of the environment:
/// `Never` never, `Always` always, `Auto` only when `NO_COLOR` is unset and
/// the sink is a terminal.
pub fn gild_with(mode: Color, no_color_unset: bool, is_tty: bool) -> (g: bool)
    ensures
        g == gilds(mode, no_color_unset, is_tty),
{
    match mode {
        Color::Never => false,
        Color::Always => true,
        Color::Auto => no_color_unset && is_tty,
    }
}

/// The `NO_COLOR` convention, given the variable's value if it is set: an
/// unset or empty `NO_COLOR` leaves automatic gilding available, and any
/// non-empty value stands it down.
pub fn no_color_unset(value: Option<String>) -> (unset: bool)
    ensures
        unset == match value {
            Some(s) => s@.len() == 0,
            None => true,
        },
{
    match value {
        Some(v) => v.as_str().is_empty(),
        None => true,
    }
}

} // verus!

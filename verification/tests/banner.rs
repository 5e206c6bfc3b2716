use sponsored_logs::banner::{render, wrap_text, WIDTH};
use sponsored_logs::Box;

#[test]
fn renders_a_double_banner_with_masthead() {
    let out = render("Own the viewport.", "[AD]", Box::Double, false, false);
    let lines: Vec<&str> = out.lines().collect();
    assert!(
        lines[0].starts_with("╔═ [AD] "),
        "top border carries the tag"
    );
    assert!(lines[0].ends_with('╗'));
    assert!(lines.last().unwrap().starts_with('╚'));
    assert!(lines[1].starts_with('║') && lines[1].ends_with('║'));
}

#[test]
fn every_line_is_the_same_width() {
    let out = render(
        "a somewhat longer creative that will wrap",
        "[AD]",
        Box::Light,
        false,
        false,
    );
    let widths: Vec<usize> = out.lines().map(|l| l.chars().count()).collect();
    assert!(
        widths.iter().all(|w| *w == widths[0]),
        "frame stays on-grid: {widths:?}"
    );
}

#[test]
fn ascii_only_uses_portable_glyphs() {
    let out = render("legacy sink", "[AD]", Box::Double, true, false);
    assert!(out.contains('+') && out.contains('|') && out.contains('-'));
    assert!(!out.contains('╔'), "no box-drawing when ascii_only");
}

#[test]
fn gilded_masthead_keeps_the_border_aligned() {
    let plain = render("aligned?", "[AD]", Box::Double, false, false);
    let gold = render("aligned?", "[AD]", Box::Double, false, true);
    assert!(gold.contains("\x1b[38;5;214m"), "masthead is gilded");

    let strip = |s: &str| s.replace("\x1b[38;5;214m", "").replace("\x1b[0m", "");
    assert_eq!(
        strip(&gold),
        plain,
        "stripped of escapes, the gilded frame is byte-identical"
    );
}

#[test]
fn blank_prefix_collapses_to_a_solid_rule() {
    let out = render("no tag", "", Box::Light, false, false);
    let top = out.lines().next().unwrap();
    assert!(!top.contains("[AD]"));
    assert!(top.starts_with('┌') && top.ends_with('┐'));
}

#[test]
fn wraps_a_word_longer_than_the_frame() {
    let long = "x".repeat(WIDTH + 10);
    let lines = wrap_text(&long, WIDTH);
    assert_eq!(lines[0].chars().count(), WIDTH);
    assert_eq!(lines[1].chars().count(), 10);
}

#[test]
fn wrap_of_empty_text_is_one_blank_line() {
    assert_eq!(wrap_text("", WIDTH), vec![String::new()]);
}

#[test]
fn wrap_joins_words_greedily() {
    assert_eq!(
        wrap_text("aa bb cc dd", 5),
        vec!["aa bb".to_string(), "cc dd".to_string()]
    );
    assert_eq!(
        wrap_text("  aa\tbb\n cc  ", 8),
        vec!["aa bb cc".to_string()]
    );
}

#[test]
fn wrap_closes_the_open_line_before_a_long_word() {
    assert_eq!(
        wrap_text("ab cdefgh i", 3),
        vec![
            "ab".to_string(),
            "cde".to_string(),
            "fgh".to_string(),
            "i".to_string()
        ]
    );
}

#[test]
fn wrap_of_blank_text_is_one_blank_line() {
    assert_eq!(wrap_text(" \t\n ", 4), vec![String::new()]);
}

#[test]
fn wrapped_lines_never_exceed_the_width() {
    let text = "Brought to you by Contoso, the enterprise you invented for the demo. \
                Supercalifragilisticexpialidocious-and-then-some-more-characters-here";
    for width in [1usize, 5, 13, 60] {
        let lines = wrap_text(text, width);
        assert!(!lines.is_empty());
        for l in &lines {
            let n = l.chars().count();
            assert!(n >= 1 && n <= width, "{l:?} in width {width}");
        }
    }
}

#[test]
fn banner_is_exact() {
    let out = render("hi there", "[AD]", Box::Heavy, false, false);
    let expected = format!(
        "┏━ [AD] {}┓\n┃ {:<60} ┃\n┗{}┛",
        "━".repeat(55),
        "hi there",
        "━".repeat(62)
    );
    assert_eq!(out, expected);
}

#[test]
fn every_row_is_sixty_four_characters() {
    let text = "a ".repeat(100);
    for tier in [Box::Light, Box::Heavy, Box::Double] {
        for ascii in [false, true] {
            let out = render(&text, "SPONSORED:", tier, ascii, false);
            let rows: Vec<&str> = out.split('\n').collect();
            assert!(rows.len() >= 4);
            for r in rows {
                assert_eq!(r.chars().count(), WIDTH + 4);
            }
        }
    }
}

#[test]
fn gilding_a_blank_prefix_changes_nothing() {
    let plain = render("x", "", Box::Double, false, false);
    let gold = render("x", "", Box::Double, false, true);
    assert_eq!(plain, gold);
}

#[test]
fn a_long_prefix_leaves_no_fill() {
    let prefix = "p".repeat(70);
    let out = render("x", &prefix, Box::Light, true, false);
    let top = out.lines().next().unwrap();
    assert_eq!(top, format!("+- {} +", prefix));
}

#[test]
fn wrapping_keeps_every_character() {
    let text = "  Brought to you by\tContoso,  the-enterprise-you-invented-for-the-demo-and-more \n x";
    for width in [1usize, 4, 9, 60] {
        let lines = wrap_text(text, width);
        let kept: String = lines.concat().chars().filter(|c| !c.is_whitespace()).collect();
        let expected: String = text.chars().filter(|c| !c.is_whitespace()).collect();
        assert_eq!(kept, expected);
    }
}

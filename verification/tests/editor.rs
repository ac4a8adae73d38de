use zen_markdown::editor::{span_format, SpanFormat};
use zen_markdown::{
    apply_action, char_to_byte, command_action, heading_level, highlight, line_prefix,
    wrap_selection, CharRange, FormatAction, Palette, Rgb, Span, SpanKind, ToolbarCommand,
};

fn span(start: usize, end: usize, kind: SpanKind) -> Span {
    Span { start, end, kind }
}

fn covers(spans: &[Span], n: usize) -> bool {
    let mut at = 0;
    for s in spans {
        if s.start != at || s.end <= s.start {
            return false;
        }
        at = s.end;
    }
    at == n
}

#[test]
fn char_to_byte_counts_utf8_widths() {
    assert_eq!(char_to_byte("héllo", 0), 0);
    assert_eq!(char_to_byte("héllo", 2), 3);
    assert_eq!(char_to_byte("héllo", 5), 6);
    assert_eq!(char_to_byte("héllo", 9), 6);
    assert_eq!(char_to_byte("", 0), 0);
    assert_eq!(char_to_byte("a→b", 2), 4);
}

#[test]
fn heading_level_needs_hashes_and_space() {
    assert_eq!(heading_level("# x"), Some(1));
    assert_eq!(heading_level("###### h"), Some(6));
    assert_eq!(heading_level("####### h"), None);
    assert_eq!(heading_level("#x"), None);
    assert_eq!(heading_level("##"), None);
    assert_eq!(heading_level("x # y"), None);
}

#[test]
fn highlight_inline_markup() {
    let s = highlight("**b** x `c`");
    assert_eq!(s, vec![span(0, 5, SpanKind::Bold), span(5, 8, SpanKind::Plain), span(8, 11, SpanKind::Code)]);
}

#[test]
fn highlight_whole_lines() {
    assert_eq!(
        highlight("# Title\nplain"),
        vec![span(0, 8, SpanKind::Heading(1)), span(8, 13, SpanKind::Plain)]
    );
    assert_eq!(highlight("  > quote"), vec![span(0, 9, SpanKind::Quote)]);
    assert_eq!(highlight("```rust\n"), vec![span(0, 8, SpanKind::Fence)]);
    assert_eq!(highlight(""), vec![]);
}

#[test]
fn highlight_links_and_emphasis() {
    assert_eq!(
        highlight("[a](b) _i_"),
        vec![span(0, 6, SpanKind::Link), span(6, 7, SpanKind::Plain), span(7, 10, SpanKind::Italic)]
    );
    assert_eq!(highlight("**x"), vec![span(0, 2, SpanKind::Italic), span(2, 3, SpanKind::Plain)]);
    assert_eq!(highlight("é *a*"), vec![span(0, 2, SpanKind::Plain), span(2, 5, SpanKind::Italic)]);
    assert_eq!(highlight("[a] (b)"), vec![span(0, 7, SpanKind::Plain)]);
}

#[test]
fn highlight_spans_cover_the_text() {
    let text = "# one\n> two\n- **three** `x` [l](u)\n```\nplain _a_ *b\n";
    let spans = highlight(text);
    assert!(covers(&spans, text.chars().count()));
}

#[test]
fn wrap_keeps_selection_selected() {
    let mut t = String::from("hello world");
    let r = apply_action(&mut t, Some(CharRange { primary: 11, secondary: 6 }), FormatAction::Wrap("**", "**"));
    assert_eq!(t, "hello **world**");
    assert_eq!(r, CharRange { primary: 13, secondary: 8 });
    let selected: String = t.chars().skip(r.secondary).take(r.primary - r.secondary).collect();
    assert_eq!(selected, "world");
}

#[test]
fn wrap_without_selection_appends_like_wrap_selection() {
    let mut a = String::from("x");
    apply_action(&mut a, None, FormatAction::Wrap("**", "**"));
    let mut b = String::from("x");
    wrap_selection(&mut b, "**", "**");
    assert_eq!(a, "x****");
    assert_eq!(a, b);
}

#[test]
fn wrap_clamps_selection_to_text() {
    let mut t = String::from("abc");
    let r = apply_action(&mut t, Some(CharRange { primary: 10, secondary: 1 }), FormatAction::Wrap("`", "`"));
    assert_eq!(t, "a`bc`");
    assert_eq!(r, CharRange { primary: 11, secondary: 2 });
}

#[test]
fn wrap_counts_characters_not_bytes() {
    let mut t = String::from("héllo");
    let r = apply_action(&mut t, Some(CharRange { primary: 1, secondary: 3 }), FormatAction::Wrap("*", "*"));
    assert_eq!(t, "h*él*lo");
    assert_eq!(r, CharRange { primary: 4, secondary: 2 });
}

#[test]
fn line_prefix_goes_to_line_start() {
    let mut t = String::from("ab\ncd");
    let r = apply_action(&mut t, Some(CharRange { primary: 4, secondary: 4 }), FormatAction::LinePrefix("# "));
    assert_eq!(t, "ab\n# cd");
    assert_eq!(r, CharRange { primary: 6, secondary: 6 });
    let mut u = String::from("abc");
    apply_action(&mut u, Some(CharRange { primary: 2, secondary: 2 }), FormatAction::LinePrefix("> "));
    assert_eq!(u, "> abc");
}

#[test]
fn insert_goes_to_cursor() {
    let mut t = String::from("x");
    let r = apply_action(&mut t, None, FormatAction::Insert("[text](url)"));
    assert_eq!(t, "x[text](url)");
    assert_eq!(r, CharRange { primary: 12, secondary: 12 });
    let mut u = String::from("ab");
    apply_action(&mut u, Some(CharRange { primary: 1, secondary: 1 }), FormatAction::Insert("-"));
    assert_eq!(u, "a-b");
}

#[test]
fn insert_and_prefix_only_use_the_lower_end() {
    let mut t = String::from("abc");
    let r = apply_action(&mut t, Some(CharRange { primary: usize::MAX, secondary: 1 }), FormatAction::Insert("x"));
    assert_eq!(t, "axbc");
    assert_eq!(r, CharRange { primary: 2, secondary: 2 });
    let mut u = String::from("ab\ncd");
    let r = apply_action(&mut u, Some(CharRange { primary: 4, secondary: usize::MAX }), FormatAction::LinePrefix("# "));
    assert_eq!(u, "ab\n# cd");
    assert_eq!(r, CharRange { primary: 6, secondary: 6 });
}

#[test]
fn line_prefix_starts_a_new_line() {
    let mut t = String::from("abc");
    line_prefix(&mut t, "# ");
    assert_eq!(t, "abc\n# ");
    let mut u = String::from("abc\n");
    line_prefix(&mut u, "- ");
    assert_eq!(u, "abc\n- ");
    let mut v = String::new();
    line_prefix(&mut v, "> ");
    assert_eq!(v, "> ");
}

fn markers(a: FormatAction) -> (u8, &'static str, &'static str) {
    match a {
        FormatAction::Wrap(l, r) => (0, l, r),
        FormatAction::LinePrefix(p) => (1, p, ""),
        FormatAction::Insert(s) => (2, s, ""),
    }
}

#[test]
fn toolbar_commands_map_to_actions() {
    assert_eq!(markers(command_action(ToolbarCommand::Bold)), (0, "**", "**"));
    assert_eq!(markers(command_action(ToolbarCommand::Italic)), (0, "*", "*"));
    assert_eq!(markers(command_action(ToolbarCommand::InlineCode)), (0, "`", "`"));
    assert_eq!(markers(command_action(ToolbarCommand::Heading1)), (1, "# ", ""));
    assert_eq!(markers(command_action(ToolbarCommand::Heading2)), (1, "## ", ""));
    assert_eq!(markers(command_action(ToolbarCommand::Bullet)), (1, "- ", ""));
    assert_eq!(markers(command_action(ToolbarCommand::Quote)), (1, "> ", ""));
    assert_eq!(markers(command_action(ToolbarCommand::Link)), (2, "[text](url)", ""));
}

#[test]
fn span_formats_follow_the_palette() {
    let p = Palette::tokyo_night();
    assert_eq!(
        span_format(SpanKind::Code, &p),
        SpanFormat { color: p.code_inline_fg, background: Some(p.code_inline_bg), italics: false }
    );
    assert_eq!(span_format(SpanKind::Quote, &p), SpanFormat { color: p.muted, background: None, italics: true });
    assert_eq!(span_format(SpanKind::Heading(2), &p).color, Rgb { r: 0xBB, g: 0x9A, b: 0xF7 });
    assert_eq!(span_format(SpanKind::Bold, &p).color, p.text);
    assert_eq!(span_format(SpanKind::Italic, &p), SpanFormat { color: p.text, background: None, italics: true });
}

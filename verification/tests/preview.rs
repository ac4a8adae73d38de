use zen_markdown::code::{highlight_simple_rust, CodeToken};
use zen_markdown::preview::FontKind;
use zen_markdown::{render, Block, Palette, Rgb, Run};

fn rgb(r: u8, g: u8, b: u8) -> Rgb {
    Rgb { r, g, b }
}

fn texts(b: &Block) -> Vec<String> {
    match b {
        Block::Paragraph { runs, .. } => runs.iter().map(|r| r.text.clone()).collect(),
        _ => panic!("not a paragraph"),
    }
}

fn runs(b: &Block) -> &Vec<Run> {
    match b {
        Block::Paragraph { runs, .. } => runs,
        _ => panic!("not a paragraph"),
    }
}

#[test]
fn heading_gets_gap_font_and_color() {
    let p = Palette::tokyo_night();
    let blocks = render("# Title", &p);
    assert_eq!(blocks.len(), 2);
    assert_eq!(blocks[0], Block::HeadingGap(1));
    let r = &runs(&blocks[1])[0];
    assert_eq!(r.text, "Title");
    assert_eq!(r.font, FontKind::Heading(1));
    assert_eq!(r.color, rgb(0x7A, 0xA2, 0xF7));
    let blocks = render("### Three", &p);
    assert_eq!(runs(&blocks[1])[0].color, p.accent_cyan);
    assert_eq!(runs(&blocks[1])[0].font, FontKind::Heading(3));
}

#[test]
fn strong_text_stays_text_color() {
    let p = Palette::tokyo_night();
    let blocks = render("hello **world**", &p);
    assert_eq!(blocks.len(), 1);
    assert_eq!(texts(&blocks[0]), vec!["hello ", "world"]);
    assert_eq!(runs(&blocks[0])[0].color, p.text);
    assert_ne!(p.heading, p.text);
    assert_eq!(runs(&blocks[0])[1].color, p.text);
    assert_eq!(runs(&blocks[0])[1].font, FontKind::Body);
}

#[test]
fn bullet_items_get_markers() {
    let p = Palette::tokyo_night();
    let blocks = render("- a\n- b", &p);
    assert_eq!(blocks.len(), 2);
    assert_eq!(texts(&blocks[0]), vec!["- ", "a"]);
    assert_eq!(texts(&blocks[1]), vec!["- ", "b"]);
    assert_eq!(runs(&blocks[0])[0].color, p.accent_cyan);
}

#[test]
fn ordered_items_count_from_start() {
    let p = Palette::tokyo_night();
    let blocks = render("3. a\n4. b\n5. c", &p);
    assert_eq!(blocks.len(), 3);
    assert_eq!(texts(&blocks[0]), vec!["3. ", "a"]);
    assert_eq!(texts(&blocks[1]), vec!["4. ", "b"]);
    assert_eq!(texts(&blocks[2]), vec!["5. ", "c"]);
}

#[test]
fn nested_items_are_indented() {
    let p = Palette::tokyo_night();
    let blocks = render("- a\n  - b", &p);
    assert_eq!(blocks.len(), 2);
    assert_eq!(texts(&blocks[0]), vec!["- ", "a"]);
    assert_eq!(texts(&blocks[1]), vec!["  - ", "b"]);
}

#[test]
fn code_block_has_label_and_tokens() {
    let p = Palette::tokyo_night();
    let blocks = render("```Rust\nfn main() {}\n```", &p);
    assert_eq!(blocks.len(), 1);
    match &blocks[0] {
        Block::Code { label, tokens } => {
            assert_eq!(label.as_deref(), Some("rust"));
            let t: Vec<&str> = tokens.iter().map(|t| t.text.as_str()).collect();
            assert_eq!(t, vec!["fn", " ", "main", "(", ")", " ", "{", "}"]);
            assert_eq!(tokens[0].color, rgb(0xBB, 0x9A, 0xF7));
            assert_eq!(tokens[2].color, p.code_block_fg);
            assert_eq!(tokens[3].color, p.muted);
        }
        _ => panic!("expected a code block"),
    }
    let blocks = render("```\nx\n```", &p);
    match &blocks[0] {
        Block::Code { label, .. } => assert_eq!(*label, None),
        _ => panic!("expected a code block"),
    }
}

#[test]
fn quotes_rules_links_and_breaks() {
    let p = Palette::tokyo_night();
    let blocks = render("> q", &p);
    assert_eq!(blocks.len(), 1);
    match &blocks[0] {
        Block::Paragraph { quoted, .. } => assert!(*quoted),
        _ => panic!("expected a paragraph"),
    }
    let blocks = render("a\n\n---\n\nb", &p);
    assert_eq!(blocks.len(), 3);
    assert_eq!(blocks[1], Block::Rule);
    let blocks = render("[a](http://x)", &p);
    assert_eq!(texts(&blocks[0]), vec!["\u{2192} http://x", "a"]);
    assert_eq!(runs(&blocks[0])[0].color, p.accent_cyan);
    let blocks = render("a\nb", &p);
    assert_eq!(texts(&blocks[0]), vec!["a", " ", "b"]);
}

#[test]
fn inline_styles() {
    let p = Palette::tokyo_night();
    let blocks = render("`c` ~~s~~ *i*", &p);
    let r = runs(&blocks[0]);
    assert_eq!(r[0].text, "c");
    assert_eq!(r[0].font, FontKind::Monospace);
    assert_eq!(r[0].color, p.code_inline_fg);
    assert_eq!(r[0].background, Some(p.code_inline_bg));
    assert_eq!(r[2].text, "s");
    assert!(r[2].strikethrough);
    assert_eq!(r[4].text, "i");
    assert!(r[4].italics);
}

#[test]
fn empty_source_renders_nothing() {
    let p = Palette::tokyo_day();
    assert_eq!(render("", &p), vec![]);
    for b in render("para\n\n> q\n\n- x\n\n```\n```\n", &p) {
        if let Block::Paragraph { runs, .. } = b {
            assert!(runs.iter().any(|r| !r.text.is_empty()));
        }
    }
}

fn tok(text: &str, color: Rgb) -> CodeToken {
    CodeToken { text: text.to_string(), color }
}

#[test]
fn rust_tokens_strings_and_comments() {
    let p = Palette::tokyo_night();
    let t = highlight_simple_rust("let s = \"a\\\"b\"; // hi", &p);
    assert_eq!(
        t,
        vec![
            tok("let", p.accent_soft),
            tok(" ", p.code_block_fg),
            tok("s", p.code_block_fg),
            tok(" ", p.code_block_fg),
            tok("=", p.accent),
            tok(" ", p.code_block_fg),
            tok("\"a\\\"b\"", p.accent_green),
            tok(";", p.muted),
            tok(" ", p.code_block_fg),
            tok("// hi", p.muted),
        ]
    );
}

#[test]
fn rust_tokens_names_and_numbers() {
    let p = Palette::tokyo_night();
    let t = highlight_simple_rust("Foo 42 x_y\n", &p);
    assert_eq!(
        t,
        vec![
            tok("Foo", p.accent_cyan),
            tok(" ", p.code_block_fg),
            tok("42", p.accent_orange),
            tok(" ", p.code_block_fg),
            tok("x_y", p.code_block_fg),
            tok("\n", p.code_block_fg),
        ]
    );
    let code = "fn f() { // c\n  \"s\" }";
    let joined: String = highlight_simple_rust(code, &p).iter().map(|t| t.text.as_str()).collect();
    assert_eq!(joined, code);
}

#[test]
fn tokenizer_groups_by_the_given_answers() {
    let p = Palette::tokyo_night();
    let t = zen_markdown::code::tokenize_code("ab", &vec![true, true], &p);
    assert_eq!(t, vec![tok("ab", p.code_block_fg)]);
    let t = zen_markdown::code::tokenize_code("ab", &vec![false, false], &p);
    assert_eq!(t, vec![tok("a", p.code_block_fg), tok("b", p.code_block_fg)]);
    let t = zen_markdown::code::tokenize_code("a_b", &vec![true, false, true], &p);
    assert_eq!(t, vec![tok("a_b", p.code_block_fg)]);
    assert_eq!(highlight_simple_rust("ab", &p), vec![tok("ab", p.code_block_fg)]);
    assert_eq!(highlight_simple_rust("é1", &p), vec![tok("é1", p.code_block_fg)]);
}

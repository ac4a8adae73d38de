use zen_markdown::state::DEFAULT_DOC;
use zen_markdown::{enqueue_found, take_pending, Palette, ThemeMode, ZenApp};

#[test]
fn new_app_shows_default_document() {
    let app = ZenApp::new();
    assert_eq!(app.text(), DEFAULT_DOC);
    assert!(!app.dirty());
    assert!(!app.show_editor());
    assert!(app.show_preview());
    assert_eq!(app.palette(), Palette::tokyo_night());
    assert_eq!(app.title(), "untitled \u{2014} zen-markdown");
    assert_eq!(app.status_label(), "untitled.md");
    assert!(app.needs_save_as());
}

#[test]
fn edits_mark_unsaved_changes() {
    let mut app = ZenApp::new();
    app.edited(DEFAULT_DOC.to_string());
    assert!(!app.dirty());
    app.edited("changed".to_string());
    assert!(app.dirty());
    assert_eq!(app.title(), "\u{25cf} untitled \u{2014} zen-markdown");
    assert_eq!(app.status_label(), "\u{25cf} untitled.md");
    app.saved(false);
    assert!(app.dirty());
    app.saved_as(true, Some("a.md".to_string()));
    assert!(!app.dirty());
    assert_eq!(app.title(), "a.md \u{2014} zen-markdown");
    assert!(!app.needs_save_as());
}

#[test]
fn loading_a_file() {
    let mut app = ZenApp::new();
    app.edited("x".to_string());
    app.load_path(None, Some("missing.md".to_string()));
    assert_eq!(app.text(), "x");
    assert!(app.dirty());
    app.load_path(Some("abc".to_string()), Some("notes.md".to_string()));
    assert_eq!(app.text(), "abc");
    assert!(!app.dirty());
    assert_eq!(app.file_name().map(|s| s.as_str()), Some("notes.md"));
    assert_eq!(app.title(), "notes.md \u{2014} zen-markdown");
}

#[test]
fn dropping_a_file_shows_the_editor() {
    let mut app = ZenApp::new();
    app.file_dropped(None, None);
    assert!(app.show_editor());
    assert_eq!(app.text(), DEFAULT_DOC);
    let mut app = ZenApp::new();
    app.file_dropped(Some("dropped".to_string()), Some("d.md".to_string()));
    assert!(app.show_editor());
    assert_eq!(app.text(), "dropped");
}

#[test]
fn panes_never_both_hidden() {
    let mut app = ZenApp::new();
    app.toggle_editor();
    assert!(app.show_editor() && app.show_preview());
    app.toggle_preview();
    assert!(app.show_editor() && !app.show_preview());
    app.toggle_editor();
    assert!(!app.show_editor() && app.show_preview());
    app.toggle_preview();
    assert!(app.show_editor() && !app.show_preview());
    app.set_panes(false, false);
    assert!(!app.show_editor() && app.show_preview());
    app.set_panes(true, false);
    assert!(app.show_editor() && !app.show_preview());
}

#[test]
fn theme_toggles_back_and_forth() {
    let mut app = ZenApp::new();
    assert_eq!(app.theme_glyph(), "\u{25cb}");
    app.toggle_theme();
    assert_eq!(app.palette(), Palette::tokyo_day());
    assert_eq!(app.palette().mode, ThemeMode::Light);
    assert_eq!(app.theme_glyph(), "\u{25cf}");
    app.toggle_theme();
    assert_eq!(app.palette(), Palette::tokyo_night());
}

#[test]
fn doc_stats_counts_words_and_minutes() {
    let mut app = ZenApp::new();
    app.edited("hello  world\n".to_string());
    assert_eq!(app.doc_stats(), (13, 2, 1));
    app.edited(String::new());
    assert_eq!(app.doc_stats(), (0, 0, 1));
    app.edited("w ".repeat(220));
    assert_eq!(app.doc_stats().1, 220);
    assert_eq!(app.doc_stats().2, 1);
    app.edited("w ".repeat(221));
    assert_eq!(app.doc_stats().2, 2);
    app.edited("é\u{3000}ü".to_string());
    assert_eq!(app.doc_stats(), (3, 2, 1));
}

#[test]
fn pending_files_come_out_in_order() {
    let mut q: Vec<String> = Vec::new();
    assert!(!enqueue_found(&mut q, vec![]));
    assert!(enqueue_found(&mut q, vec!["a.md".to_string(), "b.md".to_string()]));
    assert!(enqueue_found(&mut q, vec!["c.md".to_string()]));
    assert_eq!(take_pending(&mut q), vec!["a.md", "b.md", "c.md"]);
    assert!(take_pending(&mut q).is_empty());
}

#[test]
fn a_run_of_queue_calls_loses_nothing() {
    let mut q: Vec<String> = Vec::new();
    let mut taken: Vec<String> = Vec::new();
    enqueue_found(&mut q, vec!["a".to_string()]);
    taken.extend(take_pending(&mut q));
    enqueue_found(&mut q, vec!["b".to_string(), "c".to_string()]);
    enqueue_found(&mut q, vec!["d".to_string()]);
    taken.extend(take_pending(&mut q));
    let again = take_pending(&mut q);
    assert!(again.is_empty());
    enqueue_found(&mut q, vec!["e".to_string()]);
    taken.extend(q.iter().cloned());
    assert_eq!(taken, vec!["a", "b", "c", "d", "e"]);
}

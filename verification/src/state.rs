//! The editor window's state and the decisions it takes on user actions.
use vstd::prelude::*;
use vstd::std_specs::iter::IteratorSpec;
use vstd::string::StringExecFns;
use vstd::string::StringSliceAdditionalSpecFns;
use vstd::utf8::encode_utf8;
use crate::text::{is_white_space, white_space};
use crate::theme::{Palette, ThemeMode, night, toggled};

verus! {

broadcast use vstd::string::group_string_axioms;

/// The document shown when the app starts without a file.
pub const DEFAULT_DOC: &'static str = "# zen-markdown

A fast markdown editor in Rust + egui.

Press `Cmd-Shift-E` to write. `Cmd-Shift-L` toggles theme.

## headings carry color

# h1 \u{2014} blue
## h2 \u{2014} magenta
### h3 \u{2014} cyan
#### h4 \u{2014} purple

## shortcuts

- `Cmd-O` open
- `Cmd-S` save
- `Cmd-Shift-E` toggle editor
- `Cmd-Shift-P` toggle reader
- `Cmd-Shift-L` toggle theme
- `Cmd-B` / `Cmd-I` bold / italic

## code blocks tint syntax

```rust
fn main() {
    let greeting = \"hello, tokyo\";
    println!(\"{}\", greeting);
}
```

## inline

`code` lives in muted cyan on dark gutter. Links like [vercel.com](https://vercel.com) glow cyan. **bold** stays text color but heavier. *italic* leans softly.

> blockquotes earn a blue spine \u{2014} quiet, structural.

---

Built with Rust + egui \u{b7} Geist Mono \u{b7} Tokyo Night
";

/// The state of the window: the document, its file, whether it has
/// unsaved changes, which panes show, and the theme.
pub struct ZenApp {
    text: String,
    file_name: Option<String>,
    dirty: bool,
    show_editor: bool,
    show_preview: bool,
    palette: Palette,
}

/// The window state as plain values.
pub struct AppView {
    pub text: Seq<char>,
    pub file_name: Option<Seq<char>>,
    pub dirty: bool,
    pub show_editor: bool,
    pub show_preview: bool,
    pub palette: Palette,
}

pub open spec fn name_view(o: Option<String>) -> Option<Seq<char>> {
    match o {
        Some(s) => Some(s@),
        None => None,
    }
}

impl View for ZenApp {
    type V = AppView;

    closed spec fn view(&self) -> AppView {
        AppView {
            text: self.text@,
            file_name: name_view(self.file_name),
            dirty: self.dirty,
            show_editor: self.show_editor,
            show_preview: self.show_preview,
            palette: self.palette,
        }
    }
}

/// At least one of the two panes shows.
pub open spec fn panes_ok(v: AppView) -> bool {
    v.show_editor || v.show_preview
}

/// Number of words: maximal runs of non-white-space characters in `s[..i]`.
pub open spec fn words_before(s: Seq<char>, i: int) -> nat
    decreases i,
{
    if i <= 0 || i > s.len() {
        0
    } else {
        words_before(s, i - 1) + if !is_white_space(s[i - 1]) && (i == 1 || is_white_space(s[i - 2])) {
            1nat
        } else {
            0nat
        }
    }
}

/// Number of words in `s`, as `split_whitespace().count()` counts them.
pub open spec fn word_count(s: Seq<char>) -> nat {
    words_before(s, s.len() as int)
}

/// Reading time in minutes at 220 words a minute, rounded up, at least one.
pub open spec fn reading_minutes(words: nat) -> nat {
    if words == 0 { 1 } else { ((words + 219) / 220) as nat }
}

pub proof fn lemma_words_before_bound(s: Seq<char>, i: int)
    requires
        0 <= i <= s.len(),
    ensures
        words_before(s, i) <= i,
    decreases i,
{
    if i > 0 {
        lemma_words_before_bound(s, i - 1);
    }
}

impl ZenApp {
    /// A window on the built-in document: no file, no changes, only the
    /// preview showing, in the dark theme.
    pub fn new() -> (app: ZenApp)
        ensures
            app@.text == DEFAULT_DOC@,
            app@.file_name is None,
            !app@.dirty,
            !app@.show_editor,
            app@.show_preview,
            app@.palette == night(),
    {
        ZenApp {
            text: String::from_str(DEFAULT_DOC),
            file_name: None,
            dirty: false,
            show_editor: false,
            show_preview: true,
            palette: Palette::tokyo_night(),
        }
    }

    /// The document text.
    pub fn text(&self) -> (t: &String)
        ensures
            t@ == self@.text,
    {
        &self.text
    }

    /// The name of the document's file, if it has one.
    pub fn file_name(&self) -> (n: Option<&String>)
        ensures
            match n {
                Some(s) => self@.file_name == Some(s@),
                None => self@.file_name is None,
            },
    {
        match &self.file_name {
            Some(s) => Some(s),
            None => None,
        }
    }

    /// Whether the document has unsaved changes.
    pub fn dirty(&self) -> (d: bool)
        ensures
            d == self@.dirty,
    {
        self.dirty
    }

    /// Whether the editor pane shows.
    pub fn show_editor(&self) -> (b: bool)
        ensures
            b == self@.show_editor,
    {
        self.show_editor
    }

    /// Whether the preview pane shows.
    pub fn show_preview(&self) -> (b: bool)
        ensures
            b == self@.show_preview,
    {
        self.show_preview
    }

    /// The theme.
    pub fn palette(&self) -> (p: Palette)
        ensures
            p == self@.palette,
    {
        self.palette
    }

    /// Takes in a file that was read: its text becomes the document, with
    /// no unsaved changes. A file that could not be read (`None`) changes nothing.
    pub fn load_path(&mut self, content: Option<String>, file_name: Option<String>)
        ensures
            match content {
                Some(c) => final(self)@ == (AppView {
                    text: c@,
                    file_name: name_view(file_name),
                    dirty: false,
                    ..old(self)@
                }),
                None => final(self)@ == old(self)@,
            },
    {
        if let Some(c) = content {
            self.text = c;
            self.file_name = file_name;
            self.dirty = false;
        }
    }

    /// Switches between the dark and the light theme.
    pub fn toggle_theme(&mut self)
        ensures
            final(self)@ == (AppView { palette: toggled(old(self)@.palette), ..old(self)@ }),
    {
        self.palette = self.palette.toggled();
    }

    /// The text shown in the status bar for the file: its name, or
    /// `untitled.md`, after a dot when there are unsaved changes.
    pub fn status_label(&self) -> (s: String)
        ensures
            s@ == (if self@.dirty { "\u{25cf} "@ } else { Seq::<char>::empty() })
                + match self@.file_name { Some(n) => n, None => "untitled.md"@ },
    {
        let mut s = if self.dirty { String::from_str("\u{25cf} ") } else { String::new() };
        match &self.file_name {
            Some(n) => s.append(n.as_str()),
            None => s.append("untitled.md"),
        }
        s
    }

    /// The window title: the file's name, or `untitled`, after a dot when
    /// there are unsaved changes, and the app's name.
    pub fn title(&self) -> (s: String)
        ensures
            s@ == (if self@.dirty { "\u{25cf} "@ } else { Seq::<char>::empty() })
                + match self@.file_name { Some(n) => n, None => "untitled"@ }
                + " \u{2014} zen-markdown"@,
    {
        let mut s = if self.dirty { String::from_str("\u{25cf} ") } else { String::new() };
        match &self.file_name {
            Some(n) => s.append(n.as_str()),
            None => s.append("untitled"),
        }
        s.append(" \u{2014} zen-markdown");
        s
    }

    /// Whether saving must ask for a file first: the document has none.
    pub fn needs_save_as(&self) -> (b: bool)
        ensures
            b == (self@.file_name is None),
    {
        self.file_name.is_none()
    }

    /// Takes the outcome of writing the document to its file: a
    /// successful write leaves no unsaved changes.
    pub fn saved(&mut self, write_ok: bool)
        ensures
            final(self)@ == (AppView { dirty: old(self)@.dirty && !write_ok, ..old(self)@ }),
    {
        if write_ok {
            self.dirty = false;
        }
    }

    /// Takes the outcome of writing the document to a newly chosen file: a
    /// successful write makes it the document's file and leaves no unsaved changes.
    pub fn saved_as(&mut self, write_ok: bool, file_name: Option<String>)
        ensures
            final(self)@ == (if write_ok {
                AppView { file_name: name_view(file_name), dirty: false, ..old(self)@ }
            } else {
                old(self)@
            }),
    {
        if write_ok {
            self.file_name = file_name;
            self.dirty = false;
        }
    }

    /// Takes the text after the editor had it: a changed text marks the
    /// document as having unsaved changes.
    pub fn edited(&mut self, new_text: String)
        ensures
            final(self)@ == (AppView {
                text: new_text@,
                dirty: old(self)@.dirty || new_text@ != old(self)@.text,
                ..old(self)@
            }),
    {
        if new_text != self.text {
            self.dirty = true;
        }
        self.text = new_text;
    }

    /// Shows or hides the editor; the preview shows whenever the editor does not.
    pub fn toggle_editor(&mut self)
        ensures
            final(self)@ == (AppView {
                show_editor: !old(self)@.show_editor,
                show_preview: old(self)@.show_preview || old(self)@.show_editor,
                ..old(self)@
            }),
            panes_ok(final(self)@),
    {
        self.show_editor = !self.show_editor;
        if !self.show_editor && !self.show_preview {
            self.show_preview = true;
        }
    }

    /// Shows or hides the preview; the editor shows whenever the preview does not.
    pub fn toggle_preview(&mut self)
        ensures
            final(self)@ == (AppView {
                show_preview: !old(self)@.show_preview,
                show_editor: old(self)@.show_editor || old(self)@.show_preview,
                ..old(self)@
            }),
            panes_ok(final(self)@),
    {
        self.show_preview = !self.show_preview;
        if !self.show_editor && !self.show_preview {
            self.show_editor = true;
        }
    }

    /// Sets the panes from the toolbar's toggles; hiding both shows the preview.
    pub fn set_panes(&mut self, show_editor: bool, show_preview: bool)
        ensures
            final(self)@ == (AppView {
                show_editor,
                show_preview: show_preview || !show_editor,
                ..old(self)@
            }),
            panes_ok(final(self)@),
    {
        self.show_editor = show_editor;
        self.show_preview = show_preview;
        if !self.show_editor && !self.show_preview {
            self.show_preview = true;
        }
    }

    /// Opens a file dropped on the window, as `load_path` does, and shows the editor.
    pub fn file_dropped(&mut self, content: Option<String>, file_name: Option<String>)
        ensures
            match content {
                Some(c) => final(self)@ == (AppView {
                    text: c@,
                    file_name: name_view(file_name),
                    dirty: false,
                    show_editor: true,
                    ..old(self)@
                }),
                None => final(self)@ == (AppView { show_editor: true, ..old(self)@ }),
            },
            panes_ok(final(self)@),
    {
        self.load_path(content, file_name);
        self.show_editor = true;
    }

    /// The glyph of the theme button: a ring in the dark theme, a disc in the light one.
    pub fn theme_glyph(&self) -> (g: &'static str)
        ensures
            g@ == (if self@.palette.mode == ThemeMode::Dark { "\u{25cb}"@ } else { "\u{25cf}"@ }),
    {
        match self.palette.mode {
            ThemeMode::Dark => "\u{25cb}",
            ThemeMode::Light => "\u{25cf}",
        }
    }

    /// Characters, words and reading minutes of the document.
    pub fn doc_stats(&self) -> (r: (usize, usize, usize))
        ensures
            r.0 == self@.text.len(),
            r.1 == word_count(self@.text),
            r.2 == reading_minutes(word_count(self@.text)),
    {
        let s = self.text.as_str();
        let mut it = s.chars();
        let mut chars: usize = 0;
        let mut words: usize = 0;
        let mut prev_white = true;
        let total = s.as_bytes().len();
        proof { crate::text::lemma_encode_len(s@); }
        loop
            invariant
                total == encode_utf8(s@).len(),
                encode_utf8(s@).len() >= s@.len(),
                it.remaining() == s@.skip(chars as int),
                chars <= s@.len(),
                words == words_before(s@, chars as int),
                chars > 0 ==> prev_white == is_white_space(s@[chars - 1]),
                chars == 0 ==> prev_white,
                s@ == self@.text,
            ensures
                chars == s@.len(),
                words == word_count(s@),
            decreases s@.len() - chars,
        {
            match it.next() {
                Some(c) => {
                    assert(s@.skip(chars as int)[0] == s@[chars as int]);
                    proof { lemma_words_before_bound(s@, chars as int); }
                    let w = white_space(c);
                    if !w && prev_white {
                        words = words + 1;
                    }
                    prev_white = w;
                    assert(s@.skip(chars as int).drop_first() =~= s@.skip(chars + 1));
                    chars = chars + 1;
                },
                None => {
                    assert(s@.skip(chars as int).len() == 0);
                    break;
                },
            }
        }
        let read_min = if words == 0 { 1 } else { words / 220 + if words % 220 == 0 { 0 } else { 1 } };
        (chars, words, read_min)
    }
}

/// The status bar and the title tell unsaved changes apart: the label and
/// the title start with a dot exactly when the document has unsaved changes
/// and its file name does not start with one.
pub proof fn law_dirty_mark(v: AppView, label: Seq<char>, title: Seq<char>)
    requires
        label == (if v.dirty { "\u{25cf} "@ } else { Seq::<char>::empty() })
            + match v.file_name { Some(n) => n, None => "untitled.md"@ },
        title == (if v.dirty { "\u{25cf} "@ } else { Seq::<char>::empty() })
            + match v.file_name { Some(n) => n, None => "untitled"@ } + " \u{2014} zen-markdown"@,
        match v.file_name { Some(n) => n.len() == 0 || n[0] != '\u{25cf}', None => true },
    ensures
        (label.len() > 0 && label[0] == '\u{25cf}') == v.dirty,
        (title.len() > 0 && title[0] == '\u{25cf}') == v.dirty,
{
    reveal_strlit("\u{25cf} ");
    reveal_strlit("untitled.md");
    reveal_strlit("untitled");
    reveal_strlit(" \u{2014} zen-markdown");
}

proof fn lemma_words_before_prefix(a: Seq<char>, x: Seq<char>, i: int)
    requires
        0 <= i <= a.len(),
    ensures
        words_before(a + x, i) == words_before(a, i),
    decreases i,
{
    if i > 0 {
        lemma_words_before_prefix(a, x, i - 1);
        assert((a + x)[i - 1] == a[i - 1]);
        if i >= 2 {
            assert((a + x)[i - 2] == a[i - 2]);
        }
    }
}

proof fn lemma_words_after_white(a: Seq<char>, c: char, b: Seq<char>, m: int)
    requires
        is_white_space(c),
        0 <= m <= b.len(),
    ensures
        words_before(a + seq![c] + b, a.len() + 1 + m) == word_count(a) + words_before(b, m),
    decreases m,
{
    let s = a + seq![c] + b;
    if m == 0 {
        assert(a + seq![c] + b == a + (seq![c] + b));
        lemma_words_before_prefix(a, seq![c] + b, a.len() as int);
        assert(s[a.len() as int] == c);
    } else {
        lemma_words_after_white(a, c, b, m - 1);
        assert(s[a.len() + m] == b[m - 1]);
        if m >= 2 {
            assert(s[a.len() + m - 1] == b[m - 2]);
        } else {
            assert(s[a.len() as int] == c);
        }
    }
}

/// White space separates words: a text made of two texts with a white
/// space character between them (a blank, a tab or a line break among them)
/// has as many words as the two texts together.
pub proof fn law_white_space_separates_words(a: Seq<char>, c: char, b: Seq<char>)
    requires
        is_white_space(c),
    ensures
        word_count(a + seq![c] + b) == word_count(a) + word_count(b),
{
    lemma_words_after_white(a, c, b, b.len() as int);
}

proof fn lemma_words_before_no_white(s: Seq<char>, i: int)
    requires
        1 <= i <= s.len(),
        forall|k: int| 0 <= k < s.len() ==> !is_white_space(#[trigger] s[k]),
    ensures
        words_before(s, i) == 1,
    decreases i,
{
    if i > 1 {
        lemma_words_before_no_white(s, i - 1);
        assert(!is_white_space(s[i - 2]));
    } else {
        assert(words_before(s, 0) == 0);
    }
    assert(!is_white_space(s[i - 1]));
}

/// A text without white space is one word, or none when it is empty.
pub proof fn law_text_without_white_space_is_one_word(s: Seq<char>)
    requires
        forall|k: int| 0 <= k < s.len() ==> !is_white_space(#[trigger] s[k]),
    ensures
        word_count(s) == if s.len() == 0 { 0nat } else { 1nat },
{
    if s.len() > 0 {
        lemma_words_before_no_white(s, s.len() as int);
    }
}

/// Reading time is at least one minute, and a document has no more words
/// than characters.
pub proof fn law_doc_stats_bounds(s: Seq<char>)
    ensures
        reading_minutes(word_count(s)) >= 1,
        word_count(s) <= s.len(),
{
    lemma_words_before_bound(s, s.len() as int);
}

} // verus!

//! The preview pane's logic: markdown events in, styled blocks out.
use vstd::prelude::*;
use pulldown_cmark::{CodeBlockKind, Event, Options, Parser, Tag, TagEnd};
use vstd::string::StrSliceExecFns;
use vstd::string::StringExecFns;
use crate::code::{CodeToken, code_tokens, highlight_simple_rust, tokens_view};
use crate::text::{
    chars_of, final_newlines_start, lowercase, lowercased, string_of_range, trim_bounds, trimmed,
    without_final_newlines,
};
use crate::theme::{Palette, Rgb, heading_color_of};

verus! {

/// An element that opens in the markdown event stream.
pub enum MdTag {
    Paragraph,
    /// A heading, with its level (1 to 6).
    Heading(u8),
    BlockQuote,
    /// A code block, with the language of a fenced block.
    CodeBlock(Option<String>),
    /// A list, with the number of the first item of an ordered list.
    List(Option<u64>),
    Item,
    Emphasis,
    Strong,
    Strikethrough,
    /// A link, with its destination.
    Link(String),
    /// An element that the preview does not style.
    Other,
}

/// An element that closes in the markdown event stream.
#[derive(Clone, Copy, PartialEq, Eq, Debug)]
pub enum MdTagEnd {
    Paragraph,
    Heading,
    BlockQuote,
    CodeBlock,
    List,
    Item,
    Emphasis,
    Strong,
    Strikethrough,
    Other,
}

/// One event of a markdown parse, as the preview reads it.
pub enum MdEvent {
    Start(MdTag),
    End(MdTagEnd),
    Text(String),
    Code(String),
    SoftBreak,
    HardBreak,
    Rule,
    TaskListMarker(bool),
    /// An event that the preview does not show.
    Other,
}

/// What `pulldown_cmark::Parser::new_ext` yields for a source text with
/// strikethrough enabled, each event taken as an `MdEvent`.
pub uninterp spec fn markdown_events(src: Seq<char>) -> Seq<MdEvent>;

/// The events of `pulldown_cmark::Parser::new_ext(src, ENABLE_STRIKETHROUGH)`,
/// in order, each converted variant by variant. Which events a text gives
/// is named, not restated: it is the CommonMark grammar.
#[verifier::external_body]
pub(crate) fn parse_markdown(src: &str) -> (events: Vec<MdEvent>)
    ensures
        events@ == markdown_events(src@),
{
    let mut events = Vec::new();
    for event in Parser::new_ext(src, Options::ENABLE_STRIKETHROUGH) {
        events.push(match event {
            Event::Start(t) => MdEvent::Start(md_tag(t)),
            Event::End(t) => MdEvent::End(md_tag_end(t)),
            Event::Text(s) => MdEvent::Text(s.into_string()),
            Event::Code(s) => MdEvent::Code(s.into_string()),
            Event::SoftBreak => MdEvent::SoftBreak,
            Event::HardBreak => MdEvent::HardBreak,
            Event::Rule => MdEvent::Rule,
            Event::TaskListMarker(checked) => MdEvent::TaskListMarker(checked),
            _ => MdEvent::Other,
        });
    }
    events
}

#[verifier::external_type_specification]
#[verifier::external_body]
pub struct ExTag<'a>(pulldown_cmark::Tag<'a>);

#[verifier::external_type_specification]
#[verifier::external_body]
pub struct ExTagEnd(pulldown_cmark::TagEnd);

/// Converts a `pulldown_cmark::Tag`, variant by variant.
#[verifier::external_body]
fn md_tag(t: pulldown_cmark::Tag<'_>) -> MdTag {
    match t {
        Tag::Paragraph => MdTag::Paragraph,
        Tag::Heading { level, .. } => MdTag::Heading(level as u8),
        Tag::BlockQuote(_) => MdTag::BlockQuote,
        Tag::CodeBlock(CodeBlockKind::Fenced(lang)) => MdTag::CodeBlock(Some(lang.into_string())),
        Tag::CodeBlock(CodeBlockKind::Indented) => MdTag::CodeBlock(None),
        Tag::List(start) => MdTag::List(start),
        Tag::Item => MdTag::Item,
        Tag::Emphasis => MdTag::Emphasis,
        Tag::Strong => MdTag::Strong,
        Tag::Strikethrough => MdTag::Strikethrough,
        Tag::Link { dest_url, .. } => MdTag::Link(dest_url.into_string()),
        _ => MdTag::Other,
    }
}

/// Converts a `pulldown_cmark::TagEnd`, variant by variant.
#[verifier::external_body]
fn md_tag_end(t: pulldown_cmark::TagEnd) -> MdTagEnd {
    match t {
        TagEnd::Paragraph => MdTagEnd::Paragraph,
        TagEnd::Heading(_) => MdTagEnd::Heading,
        TagEnd::BlockQuote(_) => MdTagEnd::BlockQuote,
        TagEnd::CodeBlock => MdTagEnd::CodeBlock,
        TagEnd::List(_) => MdTagEnd::List,
        TagEnd::Item => MdTagEnd::Item,
        TagEnd::Emphasis => MdTagEnd::Emphasis,
        TagEnd::Strong => MdTagEnd::Strong,
        TagEnd::Strikethrough => MdTagEnd::Strikethrough,
        _ => MdTagEnd::Other,
    }
}


/// The inline style in force at a point of the document.
#[derive(Clone, Copy, PartialEq, Eq, Debug, Structural)]
pub struct InlineStyle {
    pub bold: bool,
    pub italic: bool,
    pub code: bool,
    pub strike: bool,
    pub heading: Option<u8>,
}

/// The unstyled style.
pub open spec fn plain_style() -> InlineStyle {
    InlineStyle { bold: false, italic: false, code: false, strike: false, heading: None }
}

/// Which font a run is set in: a heading font of some level, the monospace
/// font, or the body font.
#[derive(Clone, Copy, PartialEq, Eq, Debug, Structural)]
pub enum FontKind {
    Heading(u8),
    Monospace,
    Body,
}

/// A stretch of text in one style.
#[derive(PartialEq, Eq, Debug)]
pub struct Run {
    pub text: String,
    pub font: FontKind,
    pub color: Rgb,
    pub background: Option<Rgb>,
    pub italics: bool,
    pub strikethrough: bool,
}

/// A run as plain values.
pub struct RunView {
    pub text: Seq<char>,
    pub font: FontKind,
    pub color: Rgb,
    pub background: Option<Rgb>,
    pub italics: bool,
    pub strikethrough: bool,
}

impl View for Run {
    type V = RunView;

    open spec fn view(&self) -> RunView {
        RunView {
            text: self.text@,
            font: self.font,
            color: self.color,
            background: self.background,
            italics: self.italics,
            strikethrough: self.strikethrough,
        }
    }
}

/// One block of the preview, top to bottom.
#[derive(PartialEq, Eq, Debug)]
pub enum Block {
    /// A label made of runs; inside a block quote when `quoted`.
    Paragraph { runs: Vec<Run>, quoted: bool },
    /// The space above a heading of the given level.
    HeadingGap(u8),
    /// A thematic break.
    Rule,
    /// A code block: its language label, if it has one, and its coloured tokens.
    Code { label: Option<String>, tokens: Vec<CodeToken> },
}

/// A block as plain values.
pub enum BlockView {
    Paragraph(Seq<RunView>, bool),
    HeadingGap(u8),
    Rule,
    Code(Option<Seq<char>>, Seq<(Seq<char>, Rgb)>),
}

pub open spec fn runs_view(v: Seq<Run>) -> Seq<RunView> {
    v.map_values(|r: Run| r@)
}

pub open spec fn opt_view(o: Option<String>) -> Option<Seq<char>> {
    match o {
        Some(s) => Some(s@),
        None => None,
    }
}

impl View for Block {
    type V = BlockView;

    open spec fn view(&self) -> BlockView {
        match self {
            Block::Paragraph { runs, quoted } => BlockView::Paragraph(runs_view(runs@), *quoted),
            Block::HeadingGap(l) => BlockView::HeadingGap(*l),
            Block::Rule => BlockView::Rule,
            Block::Code { label, tokens } => BlockView::Code(opt_view(*label), tokens_view(tokens@)),
        }
    }
}

pub open spec fn blocks_view(v: Seq<Block>) -> Seq<BlockView> {
    v.map_values(|b: Block| b@)
}

/// The font of a style.
pub open spec fn font_of(style: InlineStyle) -> FontKind {
    match style.heading {
        Some(l) => FontKind::Heading(l),
        None => if style.code { FontKind::Monospace } else { FontKind::Body },
    }
}

/// The colour of a style: heading colours by level, code in the inline
/// code colour, the rest, strong text included, in the text colour.
pub open spec fn base_color(style: InlineStyle, p: Palette) -> Rgb {
    match style.heading {
        Some(l) => heading_color_of(p, l),
        None => if style.code {
            p.code_inline_fg
        } else {
            p.text
        },
    }
}

/// A run of `text` in `style`, in the colour `over` when one is given.
pub open spec fn run_of(text: Seq<char>, style: InlineStyle, over: Option<Rgb>, p: Palette) -> RunView {
    let color = match over {
        Some(c) => c,
        None => base_color(style, p),
    };
    RunView {
        text,
        font: font_of(style),
        color,
        background: if style.code { Some(p.code_inline_bg) } else { None },
        italics: style.italic,
        strikethrough: style.strike,
    }
}

/// The state of the render pass between two events.
pub struct RenderState {
    pub style: InlineStyle,
    pub job: Seq<RunView>,
    pub in_code: bool,
    pub code_buf: Seq<char>,
    pub code_lang: Seq<char>,
    pub in_quote: bool,
    pub depth: nat,
    pub ordered: Seq<Option<u64>>,
    pub suppress: bool,
    pub out: Seq<BlockView>,
}

pub open spec fn initial_state() -> RenderState {
    RenderState {
        style: plain_style(),
        job: seq![],
        in_code: false,
        code_buf: seq![],
        code_lang: seq![],
        in_quote: false,
        depth: 0,
        ordered: seq![],
        suppress: false,
        out: seq![],
    }
}

/// The pending runs hold no text.
pub open spec fn job_blank(job: Seq<RunView>) -> bool {
    forall|k: int| 0 <= k < job.len() ==> job[k].text.len() == 0
}

/// Closes the pending runs into a paragraph block, unless they hold no text.
pub open spec fn emit(st: RenderState) -> RenderState {
    if job_blank(st.job) {
        st
    } else {
        RenderState {
            out: st.out.push(BlockView::Paragraph(st.job, st.in_quote)),
            job: seq![],
            ..st
        }
    }
}

pub open spec fn append(st: RenderState, text: Seq<char>, style: InlineStyle, over: Option<Rgb>, p: Palette) -> RenderState {
    RenderState { job: st.job.push(run_of(text, style, over, p)), ..st }
}

/// The decimal digit for `d` below ten.
pub open spec fn digit(d: nat) -> char {
    if d == 0 { '0' } else if d == 1 { '1' } else if d == 2 { '2' } else if d == 3 { '3' }
    else if d == 4 { '4' } else if d == 5 { '5' } else if d == 6 { '6' } else if d == 7 { '7' }
    else if d == 8 { '8' } else { '9' }
}

/// The decimal digits of `n`.
pub open spec fn decimal(n: nat) -> Seq<char>
    decreases n,
{
    if n < 10 {
        seq![digit(n)]
    } else {
        decimal(n / 10).push(digit(n % 10))
    }
}

/// `n` spaces.
pub open spec fn spaces(n: nat) -> Seq<char> {
    Seq::new(n, |_i: int| ' ')
}

/// The marker of a list item: indented by nesting depth, numbered in an
/// ordered list, a dash otherwise.
pub open spec fn item_marker(st: RenderState) -> Seq<char> {
    let indent = spaces(2 * (if st.depth > 0 { (st.depth - 1) as nat } else { 0 }));
    if st.ordered.len() > 0 && st.ordered.last() is Some {
        indent + decimal(st.ordered.last()->0 as nat) + seq!['.', ' ']
    } else {
        indent + seq!['-', ' ']
    }
}

/// Counts the item of an ordered list.
pub open spec fn next_number(n: u64) -> u64 {
    if n == u64::MAX { 0 } else { (n + 1) as u64 }
}

pub open spec fn bump(ordered: Seq<Option<u64>>) -> Seq<Option<u64>> {
    if ordered.len() > 0 && ordered.last() is Some {
        ordered.update(ordered.len() - 1, Some(next_number(ordered.last()->0)))
    } else {
        ordered
    }
}

/// The label of a code block: its language, trimmed and in lower case, if there is one.
pub open spec fn code_label(lang: Seq<char>) -> Option<Seq<char>> {
    if trimmed(lang).len() == 0 {
        None
    } else {
        Some(lowercased(trimmed(lang)))
    }
}

pub open spec fn code_block(code: Seq<char>, lang: Seq<char>, p: Palette) -> BlockView {
    BlockView::Code(code_label(lang), code_tokens(without_final_newlines(code), p))
}

/// The render state after an element opens.
pub open spec fn start_step(st: RenderState, tag: MdTag, p: Palette) -> RenderState {
    match tag {
        MdTag::Paragraph => if st.suppress {
            RenderState { suppress: false, ..st }
        } else {
            emit(st)
        },
        MdTag::Heading(l) => {
            let s = emit(st);
            RenderState {
                style: InlineStyle { heading: Some(l), ..s.style },
                out: s.out.push(BlockView::HeadingGap(l)),
                ..s
            }
        },
        MdTag::BlockQuote => RenderState { in_quote: true, ..emit(st) },
        MdTag::CodeBlock(lang) => RenderState {
            in_code: true,
            code_lang: match lang { Some(l) => l@, None => seq![] },
            ..emit(st)
        },
        MdTag::List(start) => {
            let s = emit(st);
            RenderState { depth: s.depth + 1, ordered: s.ordered.push(start), ..s }
        },
        MdTag::Item => {
            let s = emit(st);
            let s2 = append(s, item_marker(s), plain_style(), Some(p.accent_cyan), p);
            RenderState { ordered: bump(s.ordered), suppress: true, ..s2 }
        },
        MdTag::Emphasis => RenderState { style: InlineStyle { italic: true, ..st.style }, ..st },
        MdTag::Strong => RenderState { style: InlineStyle { bold: true, ..st.style }, ..st },
        MdTag::Strikethrough => RenderState { style: InlineStyle { strike: true, ..st.style }, ..st },
        MdTag::Link(url) => append(st, seq!['\u{2192}', ' '] + url@, plain_style(), Some(p.accent_cyan), p),
        MdTag::Other => st,
    }
}

/// The render state after an element closes.
pub open spec fn end_step(st: RenderState, tag: MdTagEnd, p: Palette) -> RenderState {
    match tag {
        MdTagEnd::Paragraph => emit(st),
        MdTagEnd::Heading => {
            let s = emit(st);
            RenderState { style: InlineStyle { heading: None, ..s.style }, ..s }
        },
        MdTagEnd::BlockQuote => RenderState { in_quote: false, ..emit(st) },
        MdTagEnd::CodeBlock => RenderState {
            out: st.out.push(code_block(st.code_buf, st.code_lang, p)),
            code_buf: seq![],
            in_code: false,
            code_lang: seq![],
            ..st
        },
        MdTagEnd::List => {
            let s = emit(st);
            RenderState {
                depth: if s.depth > 0 { (s.depth - 1) as nat } else { 0 },
                ordered: if s.ordered.len() > 0 { s.ordered.drop_last() } else { s.ordered },
                ..s
            }
        },
        MdTagEnd::Item => emit(st),
        MdTagEnd::Emphasis => RenderState { style: InlineStyle { italic: false, ..st.style }, ..st },
        MdTagEnd::Strong => RenderState { style: InlineStyle { bold: false, ..st.style }, ..st },
        MdTagEnd::Strikethrough => RenderState { style: InlineStyle { strike: false, ..st.style }, ..st },
        MdTagEnd::Other => st,
    }
}

/// The render state after one event.
pub open spec fn step(st: RenderState, e: MdEvent, p: Palette) -> RenderState {
    match e {
        MdEvent::Start(tag) => start_step(st, tag, p),
        MdEvent::End(tag) => end_step(st, tag, p),
        MdEvent::Text(t) => if st.in_code {
            RenderState { code_buf: st.code_buf + t@, ..st }
        } else {
            append(st, t@, st.style, None, p)
        },
        MdEvent::Code(t) => append(st, t@, InlineStyle { code: true, ..st.style }, None, p),
        MdEvent::SoftBreak => append(st, seq![' '], st.style, None, p),
        MdEvent::HardBreak => append(st, seq!['\n'], st.style, None, p),
        MdEvent::Rule => {
            let s = emit(st);
            RenderState { out: s.out.push(BlockView::Rule), ..s }
        },
        MdEvent::TaskListMarker(checked) => append(
            st,
            if checked { seq!['[', 'x', ']', ' '] } else { seq!['[', ' ', ']', ' '] },
            st.style,
            Some(p.accent_green),
            p,
        ),
        MdEvent::Other => st,
    }
}

/// The render state after the first `n` events.
pub open spec fn state_after(events: Seq<MdEvent>, n: nat, p: Palette) -> RenderState
    decreases n,
{
    if n == 0 || n > events.len() {
        initial_state()
    } else {
        step(state_after(events, (n - 1) as nat, p), events[n - 1], p)
    }
}

/// The blocks of the preview of an event stream.
pub open spec fn render_view(events: Seq<MdEvent>, p: Palette) -> Seq<BlockView> {
    emit(state_after(events, events.len(), p)).out
}


fn digit_char(d: u64) -> (c: char)
    requires
        d < 10,
    ensures
        c == digit(d as nat),
{
    if d == 0 { '0' } else if d == 1 { '1' } else if d == 2 { '2' } else if d == 3 { '3' }
    else if d == 4 { '4' } else if d == 5 { '5' } else if d == 6 { '6' } else if d == 7 { '7' }
    else if d == 8 { '8' } else { '9' }
}

/// `n` in decimal.
fn decimal_string(n: u64) -> (s: String)
    ensures
        s@ == decimal(n as nat),
    decreases n,
{
    if n < 10 {
        let mut s = String::new();
        s.push(digit_char(n));
        s
    } else {
        let mut s = decimal_string(n / 10);
        s.push(digit_char(n % 10));
        s
    }
}

pub proof fn lemma_runs_view_push(v: Seq<Run>, r: Run)
    ensures
        runs_view(v.push(r)) == runs_view(v).push(r@),
{
    assert(runs_view(v.push(r)) =~= runs_view(v).push(r@));
}

pub proof fn lemma_blocks_view_push(v: Seq<Block>, b: Block)
    ensures
        blocks_view(v.push(b)) == blocks_view(v).push(b@),
{
    assert(blocks_view(v.push(b)) =~= blocks_view(v).push(b@));
}

/// The render pass between two events.
struct Renderer {
    style: InlineStyle,
    job: Vec<Run>,
    in_code: bool,
    code_buf: String,
    code_lang: String,
    in_quote: bool,
    depth: usize,
    ordered: Vec<Option<u64>>,
    suppress: bool,
    out: Vec<Block>,
}

impl View for Renderer {
    type V = RenderState;

    closed spec fn view(&self) -> RenderState {
        RenderState {
            style: self.style,
            job: runs_view(self.job@),
            in_code: self.in_code,
            code_buf: self.code_buf@,
            code_lang: self.code_lang@,
            in_quote: self.in_quote,
            depth: self.depth as nat,
            ordered: self.ordered@,
            suppress: self.suppress,
            out: blocks_view(self.out@),
        }
    }
}

fn plain() -> (s: InlineStyle)
    ensures
        s == plain_style(),
{
    InlineStyle { bold: false, italic: false, code: false, strike: false, heading: None }
}

/// The run that `append_with_color` lays out.
fn run_for(text: String, style: InlineStyle, over: Option<Rgb>, p: &Palette) -> (r: Run)
    ensures
        r@ == run_of(text@, style, over, *p),
{
    let font = match style.heading {
        Some(l) => FontKind::Heading(l),
        None => if style.code { FontKind::Monospace } else { FontKind::Body },
    };
    let base = match style.heading {
        Some(l) => p.heading_color(l),
        None => if style.code {
            p.code_inline_fg
        } else {
            p.text
        },
    };
    let color = match over {
        Some(c) => c,
        None => base,
    };
    Run {
        text,
        font,
        color,
        background: if style.code { Some(p.code_inline_bg) } else { None },
        italics: style.italic,
        strikethrough: style.strike,
    }
}

fn code_block_of(code: &String, lang: &String, p: &Palette) -> (b: Block)
    ensures
        b@ == code_block(code@, lang@, *p),
{
    let lang_chars = chars_of(lang.as_str());
    let (a, z) = trim_bounds(&lang_chars);
    let label = if a == z {
        None
    } else {
        let t = string_of_range(&lang_chars, a, z);
        Some(lowercase(t.as_str()))
    };
    let code_chars = chars_of(code.as_str());
    let k = final_newlines_start(&code_chars);
    let body = string_of_range(&code_chars, 0, k);
    assert(code_chars@.subrange(0, k as int) =~= code_chars@.take(k as int));
    let tokens = highlight_simple_rust(body.as_str(), p);
    Block::Code { label, tokens }
}

impl Renderer {
    fn new() -> (r: Renderer)
        ensures
            r@ == initial_state(),
    {
        let r = Renderer {
            style: plain(),
            job: Vec::new(),
            in_code: false,
            code_buf: String::new(),
            code_lang: String::new(),
            in_quote: false,
            depth: 0,
            ordered: Vec::new(),
            suppress: false,
            out: Vec::new(),
        };
        assert(r@.job =~= Seq::<RunView>::empty());
        assert(r@.out =~= Seq::<BlockView>::empty());
        r
    }

    /// Closes the pending runs into a paragraph, unless they hold no text.
    fn emit_block(&mut self)
        ensures
            final(self)@ == emit(old(self)@),
    {
        let mut blank = true;
        let mut k: usize = 0;
        while k < self.job.len()
            invariant
                k <= self.job@.len(),
                blank == (forall|j: int| 0 <= j < k ==> self.job@[j].text@.len() == 0),
            decreases self.job@.len() - k,
        {
            if !self.job[k].text.as_str().is_empty() {
                blank = false;
            }
            k = k + 1;
        }
        let ghost jv = runs_view(self.job@);
        assert(jv.len() == self.job@.len());
        assert(forall|j: int| 0 <= j < self.job@.len() ==> #[trigger] jv[j] == self.job@[j]@);
        assert(blank ==> job_blank(jv));
        assert(!blank ==> !job_blank(jv)) by {
            if !blank {
                let j = choose|j: int| 0 <= j < self.job@.len() && self.job@[j].text@.len() != 0;
                assert(jv[j].text.len() != 0);
            }
        }
        assert(blank == job_blank(self@.job));
        if blank {
            return;
        }
        let mut runs: Vec<Run> = Vec::new();
        std::mem::swap(&mut runs, &mut self.job);
        let b = Block::Paragraph { runs, quoted: self.in_quote };
        proof { lemma_blocks_view_push(self.out@, b); }
        self.out.push(b);
        assert(self@.job =~= Seq::<RunView>::empty());
    }

    fn append_run(&mut self, text: String, style: InlineStyle, over: Option<Rgb>, p: &Palette)
        ensures
            final(self)@ == append(old(self)@, text@, style, over, *p),
    {
        let r = run_for(text, style, over, p);
        proof { lemma_runs_view_push(self.job@, r); }
        self.job.push(r);
    }

    /// The marker of a list item at the current depth and count.
    fn marker(&self) -> (m: String)
        ensures
            m@ == item_marker(self@),
    {
        let mut m = String::new();
        let indent = if self.depth > 0 { self.depth - 1 } else { 0 };
        let mut k: usize = 0;
        while k < indent
            invariant
                k <= indent,
                indent == (if self.depth > 0 { self.depth - 1 } else { 0 }),
                m@ == spaces(2 * k as nat),
            decreases indent - k,
        {
            m.push(' ');
            m.push(' ');
            assert(m@ =~= spaces(2 * (k + 1) as nat));
            k = k + 1;
        }
        let n = self.ordered.len();
        if n > 0 {
            if let Some(num) = self.ordered[n - 1] {
                let digits = decimal_string(num);
                m.append(digits.as_str());
                m.push('.');
                m.push(' ');
                assert(m@ =~= item_marker(self@));
                return m;
            }
        }
        m.push('-');
        m.push(' ');
        assert(m@ =~= item_marker(self@));
        m
    }
}


impl Renderer {
    fn start(&mut self, tag: &MdTag, p: &Palette)
        requires
            old(self).depth < usize::MAX,
        ensures
            final(self)@ == start_step(old(self)@, *tag, *p),
            final(self).depth <= old(self).depth + 1,
    {
        match tag {
            MdTag::Paragraph => {
                if self.suppress {
                    self.suppress = false;
                } else {
                    self.emit_block();
                }
            },
            MdTag::Heading(l) => {
                self.emit_block();
                self.style.heading = Some(*l);
                let b = Block::HeadingGap(*l);
                proof { lemma_blocks_view_push(self.out@, b); }
                self.out.push(b);
            },
            MdTag::BlockQuote => {
                self.emit_block();
                self.in_quote = true;
            },
            MdTag::CodeBlock(lang) => {
                self.emit_block();
                self.in_code = true;
                self.code_lang = match lang {
                    Some(l) => l.clone(),
                    None => String::new(),
                };
            },
            MdTag::List(start) => {
                self.emit_block();
                self.depth = self.depth + 1;
                self.ordered.push(*start);
            },
            MdTag::Item => {
                self.emit_block();
                let ghost s = self@;
                let m = self.marker();
                let n = self.ordered.len();
                if n > 0 {
                    if let Some(num) = self.ordered[n - 1] {
                        self.ordered.set(n - 1, Some(num.wrapping_add(1)));
                    }
                }
                assert(self.ordered@ == bump(s.ordered));
                let over = Some(p.accent_cyan);
                self.append_run(m, plain(), over, p);
                self.suppress = true;
            },
            MdTag::Emphasis => self.style.italic = true,
            MdTag::Strong => self.style.bold = true,
            MdTag::Strikethrough => self.style.strike = true,
            MdTag::Link(url) => {
                let mut t = String::from_str("\u{2192} ");
                proof { reveal_strlit("\u{2192} "); }
                t.append(url.as_str());
                assert(t@ =~= seq!['\u{2192}', ' '] + url@);
                self.append_run(t, plain(), Some(p.accent_cyan), p);
            },
            MdTag::Other => {},
        }
    }

    fn end(&mut self, tag: MdTagEnd, p: &Palette)
        ensures
            final(self)@ == end_step(old(self)@, tag, *p),
            final(self).depth <= old(self).depth,
    {
        match tag {
            MdTagEnd::Paragraph => self.emit_block(),
            MdTagEnd::Heading => {
                self.emit_block();
                self.style.heading = None;
            },
            MdTagEnd::BlockQuote => {
                self.emit_block();
                self.in_quote = false;
            },
            MdTagEnd::CodeBlock => {
                let b = code_block_of(&self.code_buf, &self.code_lang, p);
                proof { lemma_blocks_view_push(self.out@, b); }
                self.out.push(b);
                self.code_buf = String::new();
                self.in_code = false;
                self.code_lang = String::new();
            },
            MdTagEnd::List => {
                self.emit_block();
                self.depth = if self.depth > 0 { self.depth - 1 } else { 0 };
                let _ = self.ordered.pop();
            },
            MdTagEnd::Item => self.emit_block(),
            MdTagEnd::Emphasis => self.style.italic = false,
            MdTagEnd::Strong => self.style.bold = false,
            MdTagEnd::Strikethrough => self.style.strike = false,
            MdTagEnd::Other => {},
        }
    }

    fn step(&mut self, e: &MdEvent, p: &Palette)
        requires
            old(self).depth < usize::MAX,
        ensures
            final(self)@ == step(old(self)@, *e, *p),
            final(self).depth <= old(self).depth + 1,
    {
        match e {
            MdEvent::Start(tag) => self.start(tag, p),
            MdEvent::End(tag) => self.end(*tag, p),
            MdEvent::Text(t) => {
                if self.in_code {
                    self.code_buf.append(t.as_str());
                } else {
                    let style = self.style;
                    self.append_run(t.clone(), style, None, p);
                }
            },
            MdEvent::Code(t) => {
                let mut style = self.style;
                style.code = true;
                self.append_run(t.clone(), style, None, p);
            },
            MdEvent::SoftBreak => {
                let style = self.style;
                let mut t = String::new();
                t.push(' ');
                assert(t@ =~= seq![' ']);
                self.append_run(t, style, None, p);
            },
            MdEvent::HardBreak => {
                let style = self.style;
                let mut t = String::new();
                t.push('\n');
                assert(t@ =~= seq!['\n']);
                self.append_run(t, style, None, p);
            },
            MdEvent::Rule => {
                self.emit_block();
                let b = Block::Rule;
                proof { lemma_blocks_view_push(self.out@, b); }
                self.out.push(b);
            },
            MdEvent::TaskListMarker(checked) => {
                let style = self.style;
                let mut t = String::new();
                t.push('[');
                t.push(if *checked { 'x' } else { ' ' });
                t.push(']');
                t.push(' ');
                assert(t@ =~= (if *checked { seq!['[', 'x', ']', ' '] } else { seq!['[', ' ', ']', ' '] }));
                self.append_run(t, style, Some(p.accent_green), p);
            },
            MdEvent::Other => {},
        }
    }
}

/// Lays out a markdown event stream as the preview's blocks: paragraphs
/// of styled runs (inside or outside block quotes), gaps above headings,
/// rules, and coloured code blocks.
pub fn render_events(events: &Vec<MdEvent>, p: &Palette) -> (blocks: Vec<Block>)
    ensures
        blocks_view(blocks@) == render_view(events@, *p),
{
    let mut r = Renderer::new();
    let mut i: usize = 0;
    while i < events.len()
        invariant
            i <= events@.len(),
            r.depth <= i,
            r@ == state_after(events@, i as nat, *p),
        decreases events@.len() - i,
    {
        r.step(&events[i], p);
        i = i + 1;
    }
    r.emit_block();
    r.out
}

/// Parses markdown and lays it out as the preview's blocks.
pub fn render(src: &str, p: &Palette) -> (blocks: Vec<Block>)
    ensures
        blocks_view(blocks@) == render_view(markdown_events(src@), *p),
{
    let events = parse_markdown(src);
    render_events(&events, p)
}

/// Every paragraph block has some text.
pub open spec fn paragraphs_have_text(out: Seq<BlockView>) -> bool {
    forall|k: int| 0 <= k < out.len() ==> (#[trigger] out[k] matches BlockView::Paragraph(runs, _) ==> !job_blank(runs))
}

proof fn lemma_emit_keeps(st: RenderState)
    requires
        paragraphs_have_text(st.out),
    ensures
        paragraphs_have_text(emit(st).out),
{
    if !job_blank(st.job) {
        let o = st.out.push(BlockView::Paragraph(st.job, st.in_quote));
        assert forall|k: int| 0 <= k < o.len() implies (#[trigger] o[k] matches BlockView::Paragraph(runs, _) ==> !job_blank(runs)) by {
            if k < st.out.len() {
                assert(o[k] == st.out[k]);
            }
        }
    }
}

proof fn lemma_push_other_keeps(out: Seq<BlockView>, b: BlockView)
    requires
        paragraphs_have_text(out),
        !(b is Paragraph),
    ensures
        paragraphs_have_text(out.push(b)),
{
    let o = out.push(b);
    assert forall|k: int| 0 <= k < o.len() implies (#[trigger] o[k] matches BlockView::Paragraph(runs, _) ==> !job_blank(runs)) by {
        if k < out.len() {
            assert(o[k] == out[k]);
        }
    }
}

proof fn lemma_step_keeps(st: RenderState, e: MdEvent, p: Palette)
    requires
        paragraphs_have_text(st.out),
    ensures
        paragraphs_have_text(step(st, e, p).out),
{
    lemma_emit_keeps(st);
    let s = emit(st);
    match e {
        MdEvent::Start(MdTag::Heading(l)) => lemma_push_other_keeps(s.out, BlockView::HeadingGap(l)),
        MdEvent::End(MdTagEnd::CodeBlock) => lemma_push_other_keeps(st.out, code_block(st.code_buf, st.code_lang, p)),
        MdEvent::Rule => lemma_push_other_keeps(s.out, BlockView::Rule),
        _ => {},
    }
}

proof fn lemma_state_after_keeps(events: Seq<MdEvent>, n: nat, p: Palette)
    ensures
        paragraphs_have_text(state_after(events, n, p).out),
    decreases n,
{
    if n > 0 && n <= events.len() {
        lemma_state_after_keeps(events, (n - 1) as nat, p);
        lemma_step_keeps(state_after(events, (n - 1) as nat, p), events[n - 1], p);
    }
}

/// The preview never lays out an empty paragraph: every paragraph block
/// holds some text.
pub proof fn law_no_empty_paragraphs(events: Seq<MdEvent>, p: Palette)
    ensures
        paragraphs_have_text(render_view(events, p)),
{
    lemma_state_after_keeps(events, events.len(), p);
    lemma_emit_keeps(state_after(events, events.len(), p));
}

/// A code block shows its code, but for the line breaks it ends with: its
/// tokens, read one after another, give back that text.
pub proof fn law_code_block_keeps_code(code: Seq<char>, lang: Seq<char>, p: Palette)
    ensures
        code_block(code, lang, p) matches BlockView::Code(_, toks)
            && crate::code::joined(toks) == without_final_newlines(code),
{
    crate::code::law_code_tokens_cover(without_final_newlines(code), crate::code::alnum_flags(without_final_newlines(code)), p);
}

/// A heading's style ends with the heading: after `End(Heading)` no heading
/// style is in force, so the text that follows (outside a code block) is set
/// in the body or monospace font, never a heading font, and in the text or
/// inline code colour rather than a heading colour.
pub proof fn law_heading_style_ends(st: RenderState, t: String, p: Palette)
    requires
        !st.in_code,
    ensures
        step(st, MdEvent::End(MdTagEnd::Heading), p).style.heading is None,
        ({
            let s2 = step(step(st, MdEvent::End(MdTagEnd::Heading), p), MdEvent::Text(t), p);
            let run = s2.job.last();
            &&& s2.job.len() > 0
            &&& run.text == t@
            &&& !(run.font is Heading)
            &&& (run.color == p.text || run.color == p.code_inline_fg)
        }),
{
}
} // verus!

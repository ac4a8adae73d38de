//! The editor pane's logic: selection-aware formatting and syntax highlighting.
use vstd::prelude::*;
use vstd::string::StrSliceExecFns;
use vstd::string::StringExecFns;
use crate::format::{FormatAction, action_markers};
use crate::theme::{Palette, Rgb, heading_color_of};
use crate::text::{chars_of, string_of_range, is_white_space, white_space};

verus! {

/// A selection of the editor, by character index; `primary` is where the
/// cursor sits, `secondary` the other end.
#[derive(Clone, Copy, PartialEq, Eq, Debug)]
pub struct CharRange {
    pub primary: usize,
    pub secondary: usize,
}

/// Lower and upper end of the selection; the end of the text when nothing is selected.
pub open spec fn selection_bounds(sel: Option<CharRange>, n: nat) -> (int, int) {
    match sel {
        Some(r) => if r.primary <= r.secondary {
            (r.primary as int, r.secondary as int)
        } else {
            (r.secondary as int, r.primary as int)
        },
        None => (n as int, n as int),
    }
}

/// A character index held within `0..=n`.
pub open spec fn clamp(i: int, n: int) -> int {
    if i < n { i } else { n }
}

/// Index of the first character of the line that holds position `a`.
pub open spec fn line_start(t: Seq<char>, a: int) -> int
    decreases a,
{
    if a <= 0 {
        0
    } else if t[a - 1] == '\n' {
        a
    } else {
        line_start(t, a - 1)
    }
}

/// The text after an action on the selection `lo..hi`.
pub open spec fn edited_text(t: Seq<char>, lo: int, hi: int, action: FormatAction) -> Seq<char> {
    let a = clamp(lo, t.len() as int);
    let b = clamp(hi, t.len() as int);
    match action {
        FormatAction::Wrap(l, r) => t.take(a) + l@ + t.subrange(a, b) + r@ + t.skip(b),
        FormatAction::LinePrefix(p) => {
            let s = line_start(t, a);
            t.take(s) + p@ + t.skip(s)
        },
        FormatAction::Insert(s) => t.take(a) + s@ + t.skip(a),
    }
}

/// The selection after an action on the selection `lo..hi`.
pub open spec fn edited_cursor(lo: int, hi: int, action: FormatAction) -> CharRange {
    let w = action_markers(action).1.len();
    match action {
        FormatAction::Wrap(_, _) => CharRange { primary: (hi + w) as usize, secondary: (lo + w) as usize },
        _ => CharRange { primary: (lo + w) as usize, secondary: (lo + w) as usize },
    }
}

/// Position just after the last line break before `a` in `t`.
fn find_line_start(t: &Vec<char>, a: usize) -> (s: usize)
    requires
        a <= t@.len(),
    ensures
        s == line_start(t@, a as int),
        s <= a,
{
    let mut j = a;
    while j > 0 && t[j - 1] != '\n'
        invariant
            j <= a <= t@.len(),
            line_start(t@, j as int) == line_start(t@, a as int),
        decreases j,
    {
        j = j - 1;
    }
    j
}

/// Applies a formatting action to the selection of the text, and returns
/// the selection that follows it: a wrapped selection stays selected, and
/// after a prefix or an insertion the cursor moves by the inserted length.
pub fn apply_action(text: &mut String, selection: Option<CharRange>, action: FormatAction) -> (r: CharRange)
    requires
        (if action is Wrap {
            selection_bounds(selection, old(text)@.len()).1
        } else {
            selection_bounds(selection, old(text)@.len()).0
        }) + action_markers(action).1.len() <= usize::MAX,
    ensures
        final(text)@ == edited_text(old(text)@, selection_bounds(selection, old(text)@.len()).0,
            selection_bounds(selection, old(text)@.len()).1, action),
        r == edited_cursor(selection_bounds(selection, old(text)@.len()).0,
            selection_bounds(selection, old(text)@.len()).1, action),
{
    let t = chars_of(text.as_str());
    let n = t.len();
    let (cmin, cmax) = match selection {
        Some(range) => {
            let a = range.primary;
            let b = range.secondary;
            if a <= b { (a, b) } else { (b, a) }
        },
        None => (n, n),
    };
    let a = if cmin < n { cmin } else { n };
    let b = if cmax < n { cmax } else { n };
    match action {
        FormatAction::Wrap(left, right) => {
            let mut res = string_of_range(&t, 0, a);
            res.append(left);
            let mid = string_of_range(&t, a, b);
            res.append(mid.as_str());
            res.append(right);
            let tail = string_of_range(&t, b, n);
            res.append(tail.as_str());
            assert(t@.take(a as int) =~= t@.subrange(0, a as int));
            assert(t@.skip(b as int) =~= t@.subrange(b as int, n as int));
            *text = res;
            let left_len = left.unicode_len();
            CharRange { primary: cmax + left_len, secondary: cmin + left_len }
        },
        FormatAction::LinePrefix(prefix) => {
            let s = find_line_start(&t, a);
            let mut res = string_of_range(&t, 0, s);
            res.append(prefix);
            let tail = string_of_range(&t, s, n);
            res.append(tail.as_str());
            assert(t@.take(s as int) =~= t@.subrange(0, s as int));
            assert(t@.skip(s as int) =~= t@.subrange(s as int, n as int));
            *text = res;
            let plen = prefix.unicode_len();
            CharRange { primary: cmin + plen, secondary: cmin + plen }
        },
        FormatAction::Insert(snippet) => {
            let mut res = string_of_range(&t, 0, a);
            res.append(snippet);
            let tail = string_of_range(&t, a, n);
            res.append(tail.as_str());
            assert(t@.take(a as int) =~= t@.subrange(0, a as int));
            assert(t@.skip(a as int) =~= t@.subrange(a as int, n as int));
            *text = res;
            let slen = snippet.unicode_len();
            CharRange { primary: cmin + slen, secondary: cmin + slen }
        },
    }
}


/// How the editor colours a stretch of text.
#[derive(Clone, Copy, PartialEq, Eq, Debug)]
pub enum SpanKind {
    /// A code fence line.
    Fence,
    /// A heading line, with its level.
    Heading(usize),
    /// A block quote line.
    Quote,
    /// Text without markup.
    Plain,
    /// `**strong**`.
    Bold,
    /// `` `code` ``.
    Code,
    /// `[text](url)`.
    Link,
    /// `*emphasis*` or `_emphasis_`.
    Italic,
}

/// A stretch `start..end` of the text (character indices) and its kind.
#[derive(Clone, Copy, PartialEq, Eq, Debug)]
pub struct Span {
    pub start: usize,
    pub end: usize,
    pub kind: SpanKind,
}

/// Number of `#` characters that the string starts with.
pub open spec fn leading_hashes(s: Seq<char>) -> nat
    decreases s.len(),
{
    if s.len() == 0 || s[0] != '#' {
        0
    } else {
        1 + leading_hashes(s.drop_first())
    }
}

/// The level of an ATX heading: one to six `#` followed by a space.
pub open spec fn heading_level_of(s: Seq<char>) -> Option<usize> {
    let h = leading_hashes(s);
    if 1 <= h <= 6 && h < s.len() && s[h as int] == ' ' {
        Some(h as usize)
    } else {
        None
    }
}

/// Heading level of `t[k..e]`.
fn heading_level_in(t: &Vec<char>, k: usize, e: usize) -> (r: Option<usize>)
    requires
        k <= e <= t@.len(),
    ensures
        r == heading_level_of(t@.subrange(k as int, e as int)),
{
    let mut j = k;
    while j < e && t[j] == '#'
        invariant
            k <= j <= e <= t@.len(),
            leading_hashes(t@.subrange(k as int, e as int)) == (j - k) + leading_hashes(t@.subrange(j as int, e as int)),
        decreases e - j,
    {
        assert(t@.subrange(j as int, e as int).drop_first() =~= t@.subrange(j + 1, e as int));
        j = j + 1;
    }
    let h = j - k;
    assert(leading_hashes(t@.subrange(j as int, e as int)) == 0);
    assert(t@.subrange(k as int, e as int).len() == e - k);
    if h >= 1 && h <= 6 && j < e && t[j] == ' ' {
        Some(h)
    } else {
        None
    }
}

/// The heading level of a line that starts with one to six `#` and a space.
pub fn heading_level(s: &str) -> (r: Option<usize>)
    ensures
        r == heading_level_of(s@),
{
    let t = chars_of(s);
    assert(t@.subrange(0, t@.len() as int) =~= t@);
    heading_level_in(&t, 0, t.len())
}

/// End of the line that starts at `pos`, its line break included.
pub open spec fn line_end(t: Seq<char>, pos: int) -> int
    decreases t.len() - pos,
{
    if pos >= t.len() {
        t.len() as int
    } else if t[pos] == '\n' {
        pos + 1
    } else {
        line_end(t, pos + 1)
    }
}

/// First position in `pos..e` that is not white space; `e` if there is none.
pub open spec fn skip_white(t: Seq<char>, pos: int, e: int) -> int
    decreases e - pos,
{
    if pos >= e {
        e
    } else if is_white_space(t[pos]) {
        skip_white(t, pos + 1, e)
    } else {
        pos
    }
}

/// Does `t[k..e]` start with the characters of `p`?
pub open spec fn starts_with_at(t: Seq<char>, k: int, e: int, p: Seq<char>) -> bool {
    k + p.len() <= e && t.subrange(k, k + p.len()) == p
}

/// The kind of a line that is coloured whole: a fence, a heading or a quote.
pub open spec fn line_kind(t: Seq<char>, pos: int, e: int) -> Option<SpanKind> {
    let k = skip_white(t, pos, e);
    if starts_with_at(t, k, e, seq!['`', '`', '`']) {
        Some(SpanKind::Fence)
    } else if heading_level_of(t.subrange(k, e)) is Some {
        Some(SpanKind::Heading(heading_level_of(t.subrange(k, e))->0))
    } else if starts_with_at(t, k, e, seq!['>', ' ']) {
        Some(SpanKind::Quote)
    } else {
        None
    }
}

/// First index `j` in `from..hi` with `t[j] == c`.
pub open spec fn find_char(t: Seq<char>, c: char, from: int, hi: int) -> Option<int>
    decreases hi - from,
{
    if from >= hi {
        None
    } else if t[from] == c {
        Some(from)
    } else {
        find_char(t, c, from + 1, hi)
    }
}

/// First index `j` in `from..hi` with `t[j] == t[j + 1] == c` and `j + 1 < hi`.
pub open spec fn find_pair(t: Seq<char>, c: char, from: int, hi: int) -> Option<int>
    decreases hi - from,
{
    if from + 1 >= hi {
        None
    } else if t[from] == c && t[from + 1] == c {
        Some(from)
    } else {
        find_pair(t, c, from + 1, hi)
    }
}

pub proof fn lemma_find_char_bounds(t: Seq<char>, c: char, from: int, hi: int)
    ensures
        find_char(t, c, from, hi) matches Some(j) ==> from <= j < hi && t[j] == c,
    decreases hi - from,
{
    if from < hi && t[from] != c {
        lemma_find_char_bounds(t, c, from + 1, hi);
    }
}

pub proof fn lemma_find_pair_bounds(t: Seq<char>, c: char, from: int, hi: int)
    ensures
        find_pair(t, c, from, hi) matches Some(j) ==> from <= j && j + 1 < hi,
    decreases hi - from,
{
    if from + 1 < hi && !(t[from] == c && t[from + 1] == c) {
        lemma_find_pair_bounds(t, c, from + 1, hi);
    }
}

/// A plain span for `a..b`, unless it is empty.
pub open spec fn plain_span(a: int, b: int) -> Seq<Span> {
    if a < b {
        seq![Span { start: a as usize, end: b as usize, kind: SpanKind::Plain }]
    } else {
        seq![]
    }
}

/// The end of a markup span that opens at `i`, and its kind, if one does.
pub open spec fn markup_at(t: Seq<char>, hi: int, i: int) -> Option<(int, SpanKind)> {
    if t[i] == '*' && i + 1 < hi && t[i + 1] == '*' && find_pair(t, '*', i + 2, hi) is Some {
        Some((find_pair(t, '*', i + 2, hi)->0 + 2, SpanKind::Bold))
    } else if t[i] == '`' && find_char(t, '`', i + 1, hi) is Some {
        Some((find_char(t, '`', i + 1, hi)->0 + 1, SpanKind::Code))
    } else if t[i] == '[' && find_char(t, ']', i, hi) is Some
        && find_char(t, ']', i, hi)->0 + 1 < hi
        && t[find_char(t, ']', i, hi)->0 + 1] == '('
        && find_char(t, ')', find_char(t, ']', i, hi)->0 + 2, hi) is Some {
        Some((find_char(t, ')', find_char(t, ']', i, hi)->0 + 2, hi)->0 + 1, SpanKind::Link))
    } else if (t[i] == '*' || t[i] == '_') && find_char(t, t[i], i + 1, hi) is Some {
        Some((find_char(t, t[i], i + 1, hi)->0 + 1, SpanKind::Italic))
    } else {
        None
    }
}

pub proof fn lemma_markup_bounds(t: Seq<char>, hi: int, i: int)
    requires
        0 <= i < hi <= t.len(),
    ensures
        markup_at(t, hi, i) matches Some((j, _)) ==> i < j <= hi,
{
    lemma_find_pair_bounds(t, '*', i + 2, hi);
    lemma_find_char_bounds(t, '`', i + 1, hi);
    lemma_find_char_bounds(t, ']', i, hi);
    if find_char(t, ']', i, hi) is Some {
        lemma_find_char_bounds(t, ')', find_char(t, ']', i, hi)->0 + 2, hi);
    }
    lemma_find_char_bounds(t, t[i], i + 1, hi);
}

/// Spans of the inline scan of `t[..hi]`, resumed at `i` with plain text pending since `start`.
pub open spec fn inline_spans(t: Seq<char>, hi: int, start: int, i: int) -> Seq<Span>
    decreases hi - i,
{
    if i < 0 || i >= hi || hi > t.len() {
        plain_span(start, hi)
    } else {
        match markup_at(t, hi, i) {
            Some((j, kind)) => {
                proof { lemma_markup_bounds(t, hi, i); }
                plain_span(start, i) + seq![Span { start: i as usize, end: j as usize, kind }]
                    + inline_spans(t, hi, j, j)
            },
            None => inline_spans(t, hi, start, i + 1),
        }
    }
}

/// Spans of the line `t[pos..e]`.
pub open spec fn line_spans(t: Seq<char>, pos: int, e: int) -> Seq<Span> {
    match line_kind(t, pos, e) {
        Some(kind) => seq![Span { start: pos as usize, end: e as usize, kind }],
        None => inline_spans(t, e, pos, pos),
    }
}

pub proof fn lemma_line_end_bounds(t: Seq<char>, pos: int)
    requires
        0 <= pos < t.len(),
    ensures
        pos < line_end(t, pos) <= t.len(),
    decreases t.len() - pos,
{
    if t[pos] != '\n' {
        if pos + 1 < t.len() {
            lemma_line_end_bounds(t, pos + 1);
        } else {
            assert(line_end(t, pos + 1) == t.len());
        }
    }
}

/// Spans of the lines of `t` from `pos` on.
pub open spec fn spans_from(t: Seq<char>, pos: int) -> Seq<Span>
    decreases t.len() - pos,
{
    if pos < 0 || pos >= t.len() {
        seq![]
    } else {
        proof { lemma_line_end_bounds(t, pos); }
        line_spans(t, pos, line_end(t, pos)) + spans_from(t, line_end(t, pos))
    }
}

/// The editor's colouring of a whole text.
pub open spec fn highlight_spans(t: Seq<char>) -> Seq<Span> {
    spans_from(t, 0)
}


/// An index as a mathematical integer.
pub open spec fn as_int_opt(r: Option<usize>) -> Option<int> {
    match r {
        Some(j) => Some(j as int),
        None => None,
    }
}

pub(crate) fn find_char_in(t: &Vec<char>, c: char, from: usize, hi: usize) -> (r: Option<usize>)
    requires
        hi <= t@.len(),
    ensures
        as_int_opt(r) == find_char(t@, c, from as int, hi as int),
{
    let mut j = from;
    while j < hi
        invariant
            from <= j,
            hi <= t@.len(),
            find_char(t@, c, from as int, hi as int) == find_char(t@, c, j as int, hi as int),
        decreases hi - j,
    {
        if t[j] == c {
            return Some(j);
        }
        j = j + 1;
    }
    None
}

fn find_pair_in(t: &Vec<char>, c: char, from: usize, hi: usize) -> (r: Option<usize>)
    requires
        hi <= t@.len(),
    ensures
        as_int_opt(r) == find_pair(t@, c, from as int, hi as int),
{
    let mut j = from;
    while j < hi && j + 1 < hi
        invariant
            from <= j,
            hi <= t@.len(),
            find_pair(t@, c, from as int, hi as int) == find_pair(t@, c, j as int, hi as int),
        decreases hi - j,
    {
        if t[j] == c && t[j + 1] == c {
            return Some(j);
        }
        j = j + 1;
    }
    None
}

/// The markup span that opens at `i`, if one does.
fn markup_in(t: &Vec<char>, hi: usize, i: usize) -> (r: Option<(usize, SpanKind)>)
    requires
        i < hi <= t@.len(),
    ensures
        match r {
            Some((j, k)) => markup_at(t@, hi as int, i as int) == Some((j as int, k)),
            None => markup_at(t@, hi as int, i as int) is None,
        },
{
    proof {
        lemma_markup_bounds(t@, hi as int, i as int);
        lemma_find_pair_bounds(t@, '*', i + 2, hi as int);
        lemma_find_char_bounds(t@, '`', i + 1, hi as int);
        lemma_find_char_bounds(t@, ']', i as int, hi as int);
        lemma_find_char_bounds(t@, t@[i as int], i + 1, hi as int);
    }
    let c = t[i];
    if c == '*' && i + 1 < hi && t[i + 1] == '*' {
        if let Some(end) = find_pair_in(t, '*', i + 2, hi) {
            return Some((end + 2, SpanKind::Bold));
        }
    }
    if c == '`' {
        if let Some(end) = find_char_in(t, '`', i + 1, hi) {
            return Some((end + 1, SpanKind::Code));
        }
    }
    if c == '[' {
        if let Some(end_bracket) = find_char_in(t, ']', i, hi) {
            if end_bracket + 1 < hi && t[end_bracket + 1] == '(' {
                proof { lemma_find_char_bounds(t@, ')', end_bracket + 2, hi as int); }
                if let Some(end_paren) = find_char_in(t, ')', end_bracket + 2, hi) {
                    return Some((end_paren + 1, SpanKind::Link));
                }
            }
        }
    }
    if c == '*' || c == '_' {
        if let Some(end) = find_char_in(t, c, i + 1, hi) {
            return Some((end + 1, SpanKind::Italic));
        }
    }
    None
}

/// Appends a plain span for `a..b` unless it is empty.
fn flush(out: &mut Vec<Span>, a: usize, b: usize)
    ensures
        final(out)@ == old(out)@ + plain_span(a as int, b as int),
{
    if a < b {
        out.push(Span { start: a, end: b, kind: SpanKind::Plain });
    } else {
        assert(old(out)@ + plain_span(a as int, b as int) =~= old(out)@);
    }
}

/// Scans `t[lo..hi]` for inline markup and appends its spans.
fn inline_highlight(t: &Vec<char>, lo: usize, hi: usize, out: &mut Vec<Span>)
    requires
        lo <= hi <= t@.len(),
    ensures
        final(out)@ == old(out)@ + inline_spans(t@, hi as int, lo as int, lo as int),
{
    let mut i = lo;
    let mut start = lo;
    while i < hi
        invariant
            lo <= start <= i <= hi <= t@.len(),
            out@ + inline_spans(t@, hi as int, start as int, i as int)
                == old(out)@ + inline_spans(t@, hi as int, lo as int, lo as int),
        decreases hi - i,
    {
        match markup_in(t, hi, i) {
            Some((j, kind)) => {
                proof { lemma_markup_bounds(t@, hi as int, i as int); }
                let ghost before = out@;
                flush(out, start, i);
                out.push(Span { start: i, end: j, kind });
                assert(before + inline_spans(t@, hi as int, start as int, i as int)
                    =~= out@ + inline_spans(t@, hi as int, j as int, j as int));
                i = j;
                start = j;
            },
            None => {
                i = i + 1;
            },
        }
    }
    let ghost before = out@;
    flush(out, start, hi);
    assert(before + inline_spans(t@, hi as int, start as int, i as int) =~= out@);
}

fn line_end_in(t: &Vec<char>, pos: usize) -> (e: usize)
    requires
        pos <= t@.len(),
    ensures
        e == line_end(t@, pos as int),
{
    let mut j = pos;
    while j < t.len() && t[j] != '\n'
        invariant
            pos <= j <= t@.len(),
            line_end(t@, pos as int) == line_end(t@, j as int),
        decreases t@.len() - j,
    {
        j = j + 1;
    }
    if j < t.len() { j + 1 } else { j }
}

fn skip_white_in(t: &Vec<char>, pos: usize, e: usize) -> (k: usize)
    requires
        pos <= e <= t@.len(),
    ensures
        k == skip_white(t@, pos as int, e as int),
        pos <= k <= e,
{
    let mut j = pos;
    while j < e && white_space(t[j])
        invariant
            pos <= j <= e <= t@.len(),
            skip_white(t@, pos as int, e as int) == skip_white(t@, j as int, e as int),
        decreases e - j,
    {
        j = j + 1;
    }
    j
}

fn line_kind_in(t: &Vec<char>, pos: usize, e: usize) -> (r: Option<SpanKind>)
    requires
        pos <= e <= t@.len(),
    ensures
        r == line_kind(t@, pos as int, e as int),
{
    let k = skip_white_in(t, pos, e);
    let ghost fence = seq!['`', '`', '`'];
    let ghost quote = seq!['>', ' '];
    if e - k >= 3 && t[k] == '`' && t[k + 1] == '`' && t[k + 2] == '`' {
        assert(t@.subrange(k as int, k + 3) =~= fence);
        return Some(SpanKind::Fence);
    }
    assert(k + 3 <= e ==> t@.subrange(k as int, k + 3)[0] == t@[k as int]);
    assert(k + 3 <= e ==> t@.subrange(k as int, k + 3)[1] == t@[k + 1]);
    assert(k + 3 <= e ==> t@.subrange(k as int, k + 3)[2] == t@[k + 2]);
    assert(!starts_with_at(t@, k as int, e as int, fence));
    if let Some(level) = heading_level_in(t, k, e) {
        return Some(SpanKind::Heading(level));
    }
    if e - k >= 2 && t[k] == '>' && t[k + 1] == ' ' {
        assert(t@.subrange(k as int, k + 2) =~= quote);
        return Some(SpanKind::Quote);
    }
    assert(k + 2 <= e ==> t@.subrange(k as int, k + 2)[0] == t@[k as int]);
    assert(k + 2 <= e ==> t@.subrange(k as int, k + 2)[1] == t@[k + 1]);
    None
}

/// The editor's syntax colouring: each line of the text is a code fence,
/// a heading, a quote, or plain text with inline markup (strong, code,
/// links, emphasis).
pub fn highlight(text: &str) -> (spans: Vec<Span>)
    ensures
        spans@ == highlight_spans(text@),
{
    let t = chars_of(text);
    let n = t.len();
    let mut out: Vec<Span> = Vec::new();
    let mut pos: usize = 0;
    while pos < n
        invariant
            pos <= n == t@.len(),
            t@ == text@,
            out@ + spans_from(t@, pos as int) == highlight_spans(text@),
        decreases n - pos,
    {
        let e = line_end_in(&t, pos);
        proof { lemma_line_end_bounds(t@, pos as int); }
        let ghost before = out@;
        match line_kind_in(&t, pos, e) {
            Some(kind) => {
                out.push(Span { start: pos, end: e, kind });
            },
            None => {
                inline_highlight(&t, pos, e, &mut out);
            },
        }
        assert(before + spans_from(t@, pos as int) =~= out@ + spans_from(t@, e as int));
        pos = e;
    }
    assert(out@ + spans_from(t@, pos as int) =~= out@);
    out
}


/// The spans cover `lo..hi` one after another, none of them empty.
pub open spec fn spans_tile(sp: Seq<Span>, lo: int, hi: int) -> bool
    decreases sp.len(),
{
    if sp.len() == 0 {
        lo == hi
    } else {
        &&& sp[0].start == lo
        &&& sp[0].start < sp[0].end
        &&& spans_tile(sp.drop_first(), sp[0].end as int, hi)
    }
}

pub proof fn lemma_tile_concat(a: Seq<Span>, b: Seq<Span>, x: int, y: int, z: int)
    requires
        spans_tile(a, x, y),
        spans_tile(b, y, z),
    ensures
        spans_tile(a + b, x, z),
    decreases a.len(),
{
    if a.len() == 0 {
        assert(a + b =~= b);
    } else {
        assert((a + b).drop_first() =~= a.drop_first() + b);
        lemma_tile_concat(a.drop_first(), b, a[0].end as int, y, z);
    }
}

proof fn lemma_plain_tile(a: int, b: int)
    requires
        0 <= a <= b <= usize::MAX,
    ensures
        spans_tile(plain_span(a, b), a, b),
{
    if a < b {
        let sp = plain_span(a, b);
        assert(sp.drop_first() =~= Seq::<Span>::empty());
        assert(spans_tile(sp.drop_first(), b, b));
    }
}

proof fn lemma_one_tile(sp: Span, a: int, b: int)
    requires
        0 <= a < b <= usize::MAX,
        sp.start == a,
        sp.end == b,
    ensures
        spans_tile(seq![sp], a, b),
{
    assert(seq![sp].drop_first() =~= Seq::<Span>::empty());
    assert(spans_tile(seq![sp].drop_first(), b, b));
}

proof fn lemma_inline_tile(t: Seq<char>, hi: int, start: int, i: int)
    requires
        0 <= start <= i <= hi <= t.len() <= usize::MAX,
    ensures
        spans_tile(inline_spans(t, hi, start, i), start, hi),
    decreases hi - i,
{
    if i >= hi {
        lemma_plain_tile(start, hi);
    } else {
        match markup_at(t, hi, i) {
            Some((j, kind)) => {
                lemma_markup_bounds(t, hi, i);
                lemma_plain_tile(start, i);
                lemma_one_tile(Span { start: i as usize, end: j as usize, kind }, i, j);
                lemma_inline_tile(t, hi, j, j);
                lemma_tile_concat(
                    seq![Span { start: i as usize, end: j as usize, kind }],
                    inline_spans(t, hi, j, j), i, j, hi);
                lemma_tile_concat(plain_span(start, i),
                    seq![Span { start: i as usize, end: j as usize, kind }] + inline_spans(t, hi, j, j),
                    start, i, hi);
                assert(plain_span(start, i) + seq![Span { start: i as usize, end: j as usize, kind }]
                    + inline_spans(t, hi, j, j) =~= plain_span(start, i) + (seq![
                    Span { start: i as usize, end: j as usize, kind }] + inline_spans(t, hi, j, j)));
            },
            None => {
                lemma_inline_tile(t, hi, start, i + 1);
            },
        }
    }
}

proof fn lemma_spans_from_tile(t: Seq<char>, pos: int)
    requires
        0 <= pos <= t.len() <= usize::MAX,
    ensures
        spans_tile(spans_from(t, pos), pos, t.len() as int),
    decreases t.len() - pos,
{
    if pos < t.len() {
        let e = line_end(t, pos);
        lemma_line_end_bounds(t, pos);
        match line_kind(t, pos, e) {
            Some(kind) => lemma_one_tile(Span { start: pos as usize, end: e as usize, kind }, pos, e),
            None => lemma_inline_tile(t, e, pos, pos),
        }
        lemma_spans_from_tile(t, e);
        lemma_tile_concat(line_spans(t, pos, e), spans_from(t, e), pos, e, t.len() as int);
    }
}

/// The editor's colouring loses and repeats nothing: its spans cover the
/// whole text, in order, each one non-empty.
pub proof fn law_highlight_covers_text(t: Seq<char>)
    requires
        t.len() <= usize::MAX,
    ensures
        spans_tile(highlight_spans(t), 0, t.len() as int),
{
    lemma_spans_from_tile(t, 0);
}


/// Wrapping is undone by taking the two markers out again: the text around
/// and inside them is the text before the edit.
pub proof fn law_wrap_markers_removable(t: Seq<char>, lo: int, hi: int, l: &'static str, r: &'static str)
    requires
        0 <= lo <= hi,
    ensures
        ({
            let a = clamp(lo, t.len() as int);
            let b = clamp(hi, t.len() as int);
            let u = edited_text(t, lo, hi, FormatAction::Wrap(l, r));
            u.take(a) + u.subrange(a + l@.len(), b + l@.len()) + u.skip(b + l@.len() + r@.len()) == t
        }),
{
    let a = clamp(lo, t.len() as int);
    let b = clamp(hi, t.len() as int);
    let u = edited_text(t, lo, hi, FormatAction::Wrap(l, r));
    assert(u.take(a) =~= t.take(a));
    assert(u.subrange(a + l@.len(), b + l@.len()) =~= t.subrange(a, b));
    assert(u.skip(b + l@.len() + r@.len()) =~= t.skip(b));
    assert(t.take(a) + t.subrange(a, b) + t.skip(b) =~= t);
}

/// After wrapping a selection inside the text, the returned selection is
/// the old one moved right by the left marker's length: it holds exactly
/// the text that was selected before, right after the left marker and
/// right before the right one; with nothing selected, the cursor sits
/// between the two markers.
pub proof fn law_wrap_keeps_selection(t: Seq<char>, lo: int, hi: int, l: &'static str, r: &'static str)
    requires
        0 <= lo <= hi <= t.len(),
        hi + l@.len() <= usize::MAX,
    ensures
        ({
            let u = edited_text(t, lo, hi, FormatAction::Wrap(l, r));
            let c = edited_cursor(lo, hi, FormatAction::Wrap(l, r));
            &&& c.secondary == lo + l@.len()
            &&& c.primary == hi + l@.len()
            &&& u.subrange(c.secondary as int, c.primary as int) == t.subrange(lo, hi)
            &&& c.secondary >= l@.len()
            &&& u.subrange(c.secondary - l@.len(), c.secondary as int) == l@
            &&& c.primary + r@.len() <= u.len()
            &&& u.subrange(c.primary as int, c.primary + r@.len()) == r@
            &&& u.take(c.secondary - l@.len()) == t.take(lo)
        }),
{
    let u = edited_text(t, lo, hi, FormatAction::Wrap(l, r));
    assert(u.subrange(lo + l@.len(), hi + l@.len()) =~= t.subrange(lo, hi));
    assert(u.subrange(lo, lo + l@.len()) =~= l@);
    assert(u.subrange(hi + l@.len(), hi + l@.len() + r@.len()) =~= r@);
    assert(u.take(lo) =~= t.take(lo));
}

/// With nothing selected, wrapping appends both markers at the end, as
/// `wrap_selection` does, and an insertion appends the snippet.
pub proof fn law_unselected_edits_append(t: Seq<char>, l: &'static str, r: &'static str, s: &'static str)
    ensures
        edited_text(t, t.len() as int, t.len() as int, FormatAction::Wrap(l, r)) == t + l@ + r@,
        edited_text(t, t.len() as int, t.len() as int, FormatAction::Insert(s)) == t + s@,
{
    assert(t.take(t.len() as int) =~= t);
    assert(t.subrange(t.len() as int, t.len() as int) =~= Seq::<char>::empty());
    assert(t.skip(t.len() as int) =~= Seq::<char>::empty());
    assert(edited_text(t, t.len() as int, t.len() as int, FormatAction::Wrap(l, r)) =~= t + l@ + r@);
    assert(edited_text(t, t.len() as int, t.len() as int, FormatAction::Insert(s)) =~= t + s@);
}

pub proof fn lemma_line_start(t: Seq<char>, a: int)
    requires
        0 <= a <= t.len(),
    ensures
        0 <= line_start(t, a) <= a,
        line_start(t, a) == 0 || t[line_start(t, a) - 1] == '\n',
        forall|j: int| line_start(t, a) <= j < a ==> t[j] != '\n',
    decreases a,
{
    if a > 0 && t[a - 1] != '\n' {
        lemma_line_start(t, a - 1);
    }
}

/// A line prefix is written at the start of the cursor's line: right after
/// a line break or at the start of the text, and no line break lies
/// between it and the cursor.
pub proof fn law_prefix_starts_line(t: Seq<char>, lo: int, hi: int, p: &'static str)
    requires
        0 <= lo <= hi,
    ensures
        ({
            let a = clamp(lo, t.len() as int);
            let s = line_start(t, a);
            let u = edited_text(t, lo, hi, FormatAction::LinePrefix(p));
            &&& s == 0 || u[s - 1] == '\n'
            &&& u.subrange(s, s + p@.len()) == p@
            &&& u.take(s) + u.skip(s + p@.len()) == t
            &&& forall|j: int| s <= j < a ==> t[j] != '\n'
        }),
{
    let a = clamp(lo, t.len() as int);
    lemma_line_start(t, a);
    let s = line_start(t, a);
    let u = edited_text(t, lo, hi, FormatAction::LinePrefix(p));
    assert(u.subrange(s, s + p@.len()) =~= p@);
    assert(u.take(s) + u.skip(s + p@.len()) =~= t);
    if s > 0 {
        assert(u[s - 1] == t[s - 1]);
    }
}


/// Colour, background and slant of a span of the editor.
#[derive(Clone, Copy, PartialEq, Eq, Debug)]
pub struct SpanFormat {
    pub color: Rgb,
    pub background: Option<Rgb>,
    pub italics: bool,
}

pub open spec fn span_format_of(kind: SpanKind, p: Palette) -> SpanFormat {
    match kind {
        SpanKind::Fence => SpanFormat { color: p.accent_cyan, background: None, italics: false },
        SpanKind::Heading(level) => SpanFormat {
            color: heading_color_of(p, level as u8),
            background: None,
            italics: false,
        },
        SpanKind::Quote => SpanFormat { color: p.muted, background: None, italics: true },
        SpanKind::Plain => SpanFormat { color: p.text, background: None, italics: false },
        SpanKind::Bold => SpanFormat { color: p.text, background: None, italics: false },
        SpanKind::Code => SpanFormat {
            color: p.code_inline_fg,
            background: Some(p.code_inline_bg),
            italics: false,
        },
        SpanKind::Link => SpanFormat { color: p.accent_cyan, background: None, italics: false },
        SpanKind::Italic => SpanFormat { color: p.text, background: None, italics: true },
    }
}

/// How a span of the given kind is drawn in the palette.
pub fn span_format(kind: SpanKind, p: &Palette) -> (f: SpanFormat)
    ensures
        f == span_format_of(kind, *p),
{
    match kind {
        SpanKind::Fence => SpanFormat { color: p.accent_cyan, background: None, italics: false },
        SpanKind::Heading(level) => SpanFormat {
            color: p.heading_color(level as u8),
            background: None,
            italics: false,
        },
        SpanKind::Quote => SpanFormat { color: p.muted, background: None, italics: true },
        SpanKind::Plain => SpanFormat { color: p.text, background: None, italics: false },
        SpanKind::Bold => SpanFormat { color: p.text, background: None, italics: false },
        SpanKind::Code => SpanFormat {
            color: p.code_inline_fg,
            background: Some(p.code_inline_bg),
            italics: false,
        },
        SpanKind::Link => SpanFormat { color: p.accent_cyan, background: None, italics: false },
        SpanKind::Italic => SpanFormat { color: p.text, background: None, italics: true },
    }
}


pub proof fn lemma_leading_hashes(s: Seq<char>)
    ensures
        leading_hashes(s) <= s.len(),
        forall|j: int| 0 <= j < leading_hashes(s) ==> s[j] == '#',
        leading_hashes(s) < s.len() ==> s[leading_hashes(s) as int] != '#',
    decreases s.len(),
{
    if s.len() > 0 && s[0] == '#' {
        lemma_leading_hashes(s.drop_first());
        assert forall|j: int| 0 <= j < leading_hashes(s) implies s[j] == '#' by {
            if j > 0 {
                assert(s[j] == s.drop_first()[j - 1]);
            }
        }
    }
}

/// A line that the editor colours as a heading of level `l` reads, after
/// its leading white space, exactly `l` hashes (one to six) and a space:
/// the level is the number of hashes, as `heading_level` reads it.
pub proof fn law_heading_span_level(t: Seq<char>, pos: int, e: int, l: usize)
    requires
        0 <= pos <= e <= t.len(),
        line_kind(t, pos, e) == Some(SpanKind::Heading(l)),
    ensures
        ({
            let k = skip_white(t, pos, e);
            &&& 1 <= l <= 6
            &&& k + l < e
            &&& forall|j: int| k <= j < k + l ==> t[j] == '#'
            &&& t[k + l] == ' '
            &&& heading_level_of(t.subrange(k, e)) == Some(l)
        }),
{
    let k = skip_white(t, pos, e);
    lemma_skip_white_bounds(t, pos, e);
    let s = t.subrange(k, e);
    lemma_leading_hashes(s);
    assert forall|j: int| k <= j < k + l implies t[j] == '#' by {
        assert(s[j - k] == t[j]);
    }
    assert(s[l as int] == t[k + l]);
}

pub proof fn lemma_skip_white_bounds(t: Seq<char>, pos: int, e: int)
    requires
        pos <= e,
    ensures
        pos <= skip_white(t, pos, e) <= e,
    decreases e - pos,
{
    if pos < e && is_white_space(t[pos]) {
        lemma_skip_white_bounds(t, pos + 1, e);
    }
}

} // verus!

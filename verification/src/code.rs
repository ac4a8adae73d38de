//! Colouring of code blocks in the preview: a light Rust tokenizer.
use vstd::prelude::*;
use crate::editor::{find_char, find_char_in};
use crate::theme::{Palette, Rgb};
use crate::text::{chars_of, string_of_range};

verus! {

/// What `char::is_alphanumeric` answers for a character (Unicode
/// `Alphabetic` or `Numeric`).
pub uninterp spec fn alphanumeric(c: char) -> bool;

/// `char::is_alphanumeric`: whether the character is alphabetic or numeric
/// in the Unicode sense. Its answer is named, not restated.
#[verifier::external_body]
fn is_alphanumeric(c: char) -> (b: bool)
    ensures
        b == alphanumeric(c),
{
    c.is_alphanumeric()
}

/// A piece of a code block and its colour.
#[derive(PartialEq, Eq, Debug)]
pub struct CodeToken {
    pub text: String,
    pub color: Rgb,
}

/// Whether `c[i]` continues an identifier, keyword or number, given the
/// alphanumeric answer for each character.
pub open spec fn is_word_at(c: Seq<char>, alnum: Seq<bool>, i: int) -> bool {
    (0 <= i < alnum.len() && alnum[i]) || c[i] == '_'
}

/// The answer of `char::is_alphanumeric` for each character of `c`.
pub open spec fn alnum_flags(c: Seq<char>) -> Seq<bool> {
    Seq::new(c.len(), |i: int| alphanumeric(c[i]))
}

/// The Rust keywords that the preview colours.
pub open spec fn is_keyword(w: Seq<char>) -> bool {
    ||| w == seq!['f', 'n']
    ||| w == seq!['l', 'e', 't']
    ||| w == seq!['m', 'u', 't']
    ||| w == seq!['c', 'o', 'n', 's', 't']
    ||| w == seq!['s', 't', 'a', 't', 'i', 'c']
    ||| w == seq!['s', 't', 'r', 'u', 'c', 't']
    ||| w == seq!['e', 'n', 'u', 'm']
    ||| w == seq!['i', 'm', 'p', 'l']
    ||| w == seq!['t', 'r', 'a', 'i', 't']
    ||| w == seq!['p', 'u', 'b']
    ||| w == seq!['u', 's', 'e']
    ||| w == seq!['m', 'o', 'd']
    ||| w == seq!['i', 'f']
    ||| w == seq!['e', 'l', 's', 'e']
    ||| w == seq!['m', 'a', 't', 'c', 'h']
    ||| w == seq!['f', 'o', 'r']
    ||| w == seq!['w', 'h', 'i', 'l', 'e']
    ||| w == seq!['l', 'o', 'o', 'p']
    ||| w == seq!['r', 'e', 't', 'u', 'r', 'n']
    ||| w == seq!['b', 'r', 'e', 'a', 'k']
    ||| w == seq!['c', 'o', 'n', 't', 'i', 'n', 'u', 'e']
    ||| w == seq!['s', 'e', 'l', 'f']
    ||| w == seq!['S', 'e', 'l', 'f']
    ||| w == seq!['a', 's']
    ||| w == seq!['i', 'n']
    ||| w == seq!['w', 'h', 'e', 'r', 'e']
    ||| w == seq!['a', 's', 'y', 'n', 'c']
    ||| w == seq!['a', 'w', 'a', 'i', 't']
    ||| w == seq!['m', 'o', 'v', 'e']
    ||| w == seq!['r', 'e', 'f']
    ||| w == seq!['t', 'r', 'u', 'e']
    ||| w == seq!['f', 'a', 'l', 's', 'e']
}

/// Colour of a word: keywords, capitalised names and numbers stand out.
pub open spec fn word_color(w: Seq<char>, p: Palette) -> Rgb {
    if is_keyword(w) {
        p.accent_soft
    } else if w.len() > 0 && 'A' <= w[0] <= 'Z' {
        p.accent_cyan
    } else if w.len() > 0 && '0' <= w[0] <= '9' {
        p.accent_orange
    } else {
        p.code_block_fg
    }
}

/// Colour of a character that stands alone.
pub open spec fn symbol_color(c: char, p: Palette) -> Rgb {
    if c == '(' || c == ')' || c == '{' || c == '}' || c == '[' || c == ']'
        || c == ';' || c == ',' || c == '.' || c == ':' {
        p.muted
    } else if c == '=' || c == '+' || c == '-' || c == '*' || c == '%' || c == '&'
        || c == '|' || c == '!' || c == '<' || c == '>' {
        p.accent
    } else {
        p.code_block_fg
    }
}

/// A token by its text and colour.
pub open spec fn tok(text: Seq<char>, color: Rgb) -> (Seq<char>, Rgb) {
    (text, color)
}

/// The pending word `c[a..b]` as a token, unless it is empty.
pub open spec fn word_token(c: Seq<char>, a: int, b: int, p: Palette) -> Seq<(Seq<char>, Rgb)> {
    if a < b {
        seq![tok(c.subrange(a, b), word_color(c.subrange(a, b), p))]
    } else {
        seq![]
    }
}

/// End of a string literal whose body starts at `j`: just past the closing
/// quote, a backslash escaping the character after it.
pub open spec fn string_end(c: Seq<char>, j: int) -> int
    decreases c.len() - j,
{
    if j < 0 || j >= c.len() {
        c.len() as int
    } else if c[j] == '"' {
        j + 1
    } else if c[j] == '\\' {
        if j + 1 < c.len() {
            string_end(c, j + 2)
        } else {
            j + 1
        }
    } else {
        string_end(c, j + 1)
    }
}

/// End of a line comment whose body starts at `j`: just past the line break, or the end.
pub open spec fn comment_end(c: Seq<char>, j: int) -> int {
    match find_char(c, '\n', j, c.len() as int) {
        Some(k) => k + 1,
        None => c.len() as int,
    }
}

pub proof fn lemma_string_end(c: Seq<char>, j: int)
    requires
        0 <= j <= c.len(),
    ensures
        j <= string_end(c, j) <= c.len(),
    decreases c.len() - j,
{
    if j < c.len() && c[j] != '"' {
        if c[j] == '\\' {
            if j + 1 < c.len() {
                lemma_string_end(c, j + 2);
            }
        } else {
            lemma_string_end(c, j + 1);
        }
    }
}

pub proof fn lemma_comment_end(c: Seq<char>, j: int)
    requires
        0 <= j <= c.len(),
    ensures
        j <= comment_end(c, j) <= c.len(),
{
    crate::editor::lemma_find_char_bounds(c, '\n', j, c.len() as int);
}

/// Tokens of `c` from `i` on, with the word `c[w..i]` pending; `alnum`
/// holds the alphanumeric answer for each character.
pub open spec fn tokens_from(c: Seq<char>, alnum: Seq<bool>, w: int, i: int, p: Palette) -> Seq<(Seq<char>, Rgb)>
    decreases c.len() - i,
{
    if i < 0 || i >= c.len() {
        word_token(c, w, c.len() as int, p)
    } else if c[i] == '"' {
        proof { lemma_string_end(c, i + 1); }
        let e = string_end(c, i + 1);
        word_token(c, w, i, p) + seq![tok(c.subrange(i, e), p.accent_green)] + tokens_from(c, alnum, e, e, p)
    } else if c[i] == '/' && i + 1 < c.len() && c[i + 1] == '/' {
        proof { lemma_comment_end(c, i + 1); }
        let e = comment_end(c, i + 1);
        word_token(c, w, i, p) + seq![tok(c.subrange(i, e), p.muted)] + tokens_from(c, alnum, e, e, p)
    } else if is_word_at(c, alnum, i) {
        tokens_from(c, alnum, w, i + 1, p)
    } else {
        word_token(c, w, i, p) + seq![tok(seq![c[i]], symbol_color(c[i], p))] + tokens_from(c, alnum, i + 1, i + 1, p)
    }
}

/// The coloured tokens of a code block.
pub open spec fn code_tokens(c: Seq<char>, p: Palette) -> Seq<(Seq<char>, Rgb)> {
    tokens_from(c, alnum_flags(c), 0, 0, p)
}

/// A token as plain values.
pub open spec fn token_view(t: CodeToken) -> (Seq<char>, Rgb) {
    (t.text@, t.color)
}

/// Does `t[a..b]` read `k`?
fn range_is(t: &Vec<char>, a: usize, b: usize, k: &[char]) -> (r: bool)
    requires
        a <= b <= t@.len(),
    ensures
        r == (t@.subrange(a as int, b as int) == k@),
{
    if b - a != k.len() {
        return false;
    }
    let mut i: usize = 0;
    while i < k.len()
        invariant
            a <= b <= t@.len(),
            b - a == k@.len(),
            i <= k@.len(),
            forall|j: int| 0 <= j < i ==> t@[a + j] == k@[j],
        decreases k@.len() - i,
    {
        if t[a + i] != k[i] {
            assert(t@.subrange(a as int, b as int)[i as int] != k@[i as int]);
            return false;
        }
        i = i + 1;
    }
    assert(t@.subrange(a as int, b as int) =~= k@);
    true
}

fn keyword_in(t: &Vec<char>, a: usize, b: usize) -> (r: bool)
    requires
        a <= b <= t@.len(),
    ensures
        r == is_keyword(t@.subrange(a as int, b as int)),
{
    range_is(t, a, b, &['f', 'n']) || range_is(t, a, b, &['l', 'e', 't'])
        || range_is(t, a, b, &['m', 'u', 't']) || range_is(t, a, b, &['c', 'o', 'n', 's', 't'])
        || range_is(t, a, b, &['s', 't', 'a', 't', 'i', 'c'])
        || range_is(t, a, b, &['s', 't', 'r', 'u', 'c', 't'])
        || range_is(t, a, b, &['e', 'n', 'u', 'm']) || range_is(t, a, b, &['i', 'm', 'p', 'l'])
        || range_is(t, a, b, &['t', 'r', 'a', 'i', 't']) || range_is(t, a, b, &['p', 'u', 'b'])
        || range_is(t, a, b, &['u', 's', 'e']) || range_is(t, a, b, &['m', 'o', 'd'])
        || range_is(t, a, b, &['i', 'f']) || range_is(t, a, b, &['e', 'l', 's', 'e'])
        || range_is(t, a, b, &['m', 'a', 't', 'c', 'h']) || range_is(t, a, b, &['f', 'o', 'r'])
        || range_is(t, a, b, &['w', 'h', 'i', 'l', 'e']) || range_is(t, a, b, &['l', 'o', 'o', 'p'])
        || range_is(t, a, b, &['r', 'e', 't', 'u', 'r', 'n'])
        || range_is(t, a, b, &['b', 'r', 'e', 'a', 'k'])
        || range_is(t, a, b, &['c', 'o', 'n', 't', 'i', 'n', 'u', 'e'])
        || range_is(t, a, b, &['s', 'e', 'l', 'f']) || range_is(t, a, b, &['S', 'e', 'l', 'f'])
        || range_is(t, a, b, &['a', 's']) || range_is(t, a, b, &['i', 'n'])
        || range_is(t, a, b, &['w', 'h', 'e', 'r', 'e'])
        || range_is(t, a, b, &['a', 's', 'y', 'n', 'c'])
        || range_is(t, a, b, &['a', 'w', 'a', 'i', 't'])
        || range_is(t, a, b, &['m', 'o', 'v', 'e']) || range_is(t, a, b, &['r', 'e', 'f'])
        || range_is(t, a, b, &['t', 'r', 'u', 'e'])
        || range_is(t, a, b, &['f', 'a', 'l', 's', 'e'])
}


fn word_color_in(t: &Vec<char>, a: usize, b: usize, p: &Palette) -> (c: Rgb)
    requires
        a < b <= t@.len(),
    ensures
        c == word_color(t@.subrange(a as int, b as int), *p),
{
    let first = t[a];
    assert(t@.subrange(a as int, b as int)[0] == first);
    if keyword_in(t, a, b) {
        p.accent_soft
    } else if 'A' <= first && first <= 'Z' {
        p.accent_cyan
    } else if '0' <= first && first <= '9' {
        p.accent_orange
    } else {
        p.code_block_fg
    }
}

fn symbol_color_of(c: char, p: &Palette) -> (r: Rgb)
    ensures
        r == symbol_color(c, *p),
{
    if c == '(' || c == ')' || c == '{' || c == '}' || c == '[' || c == ']'
        || c == ';' || c == ',' || c == '.' || c == ':' {
        p.muted
    } else if c == '=' || c == '+' || c == '-' || c == '*' || c == '%' || c == '&'
        || c == '|' || c == '!' || c == '<' || c == '>' {
        p.accent
    } else {
        p.code_block_fg
    }
}

/// The tokens as plain values.
pub open spec fn tokens_view(v: Seq<CodeToken>) -> Seq<(Seq<char>, Rgb)> {
    v.map_values(|t: CodeToken| token_view(t))
}

proof fn lemma_tokens_view_push(v: Seq<CodeToken>, t: CodeToken)
    ensures
        tokens_view(v.push(t)) == tokens_view(v) + seq![token_view(t)],
{
    assert(tokens_view(v.push(t)) =~= tokens_view(v) + seq![token_view(t)]);
}

fn push_token(out: &mut Vec<CodeToken>, c: &Vec<char>, a: usize, b: usize, color: Rgb)
    requires
        a <= b <= c@.len(),
    ensures
        tokens_view(final(out)@) == tokens_view(old(out)@) + seq![tok(c@.subrange(a as int, b as int), color)],
{
    let text = string_of_range(c, a, b);
    let t = CodeToken { text, color };
    proof { lemma_tokens_view_push(out@, t); }
    out.push(t);
}

fn push_word(out: &mut Vec<CodeToken>, c: &Vec<char>, a: usize, b: usize, p: &Palette)
    requires
        a <= b <= c@.len(),
    ensures
        tokens_view(final(out)@) == tokens_view(old(out)@) + word_token(c@, a as int, b as int, *p),
{
    if a < b {
        let color = word_color_in(c, a, b, p);
        push_token(out, c, a, b, color);
    } else {
        assert(tokens_view(old(out)@) + word_token(c@, a as int, b as int, *p) =~= tokens_view(old(out)@));
    }
}

fn string_end_in(c: &Vec<char>, j: usize) -> (e: usize)
    requires
        j <= c@.len(),
    ensures
        e == string_end(c@, j as int),
{
    let n = c.len();
    let mut k = j;
    while k < n
        invariant
            j <= k <= n == c@.len(),
            string_end(c@, j as int) == string_end(c@, k as int),
        decreases n - k,
    {
        if c[k] == '"' {
            return k + 1;
        }
        if c[k] == '\\' {
            if k + 1 < n {
                k = k + 2;
            } else {
                return k + 1;
            }
        } else {
            k = k + 1;
        }
    }
    n
}

/// Colours a code block for the preview, given whether each character is
/// alphanumeric (`alnum[i]` for `code`'s character `i`): string literals,
/// line comments, keywords, capitalised names, numbers and punctuation each
/// get a colour. Words are runs of alphanumeric characters and underscores.
pub fn tokenize_code(code: &str, alnum: &Vec<bool>, p: &Palette) -> (toks: Vec<CodeToken>)
    requires
        alnum@.len() == code@.len(),
    ensures
        tokens_view(toks@) == tokens_from(code@, alnum@, 0, 0, *p),
{
    let c = chars_of(code);
    let n = c.len();
    let mut out: Vec<CodeToken> = Vec::new();
    let mut w: usize = 0;
    let mut i: usize = 0;
    assert(tokens_view(out@) =~= Seq::<(Seq<char>, Rgb)>::empty());
    while i < n
        invariant
            w <= i <= n == c@.len() == alnum@.len(),
            c@ == code@,
            tokens_view(out@) + tokens_from(c@, alnum@, w as int, i as int, *p)
                == tokens_from(code@, alnum@, 0, 0, *p),
        decreases n - i,
    {
        let ch = c[i];
        let ghost before = tokens_view(out@);
        if ch == '"' {
            proof { lemma_string_end(c@, i + 1); }
            let e = string_end_in(&c, i + 1);
            push_word(&mut out, &c, w, i, p);
            push_token(&mut out, &c, i, e, p.accent_green);
            assert(before + tokens_from(c@, alnum@, w as int, i as int, *p)
                =~= tokens_view(out@) + tokens_from(c@, alnum@, e as int, e as int, *p));
            w = e;
            i = e;
        } else if ch == '/' && i + 1 < n && c[i + 1] == '/' {
            proof {
                lemma_comment_end(c@, i + 1);
                crate::editor::lemma_find_char_bounds(c@, '\n', i + 1, n as int);
            }
            let e = match find_char_in(&c, '\n', i + 1, n) {
                Some(k) => k + 1,
                None => n,
            };
            push_word(&mut out, &c, w, i, p);
            push_token(&mut out, &c, i, e, p.muted);
            assert(before + tokens_from(c@, alnum@, w as int, i as int, *p)
                =~= tokens_view(out@) + tokens_from(c@, alnum@, e as int, e as int, *p));
            w = e;
            i = e;
        } else if alnum[i] || ch == '_' {
            i = i + 1;
        } else {
            push_word(&mut out, &c, w, i, p);
            let color = symbol_color_of(ch, p);
            push_token(&mut out, &c, i, i + 1, color);
            assert(c@.subrange(i as int, i + 1) =~= seq![ch]);
            assert(before + tokens_from(c@, alnum@, w as int, i as int, *p)
                =~= tokens_view(out@) + tokens_from(c@, alnum@, (i + 1) as int, (i + 1) as int, *p));
            w = i + 1;
            i = i + 1;
        }
    }
    let ghost before = tokens_view(out@);
    push_word(&mut out, &c, w, n, p);
    assert(before + tokens_from(c@, alnum@, w as int, i as int, *p) =~= tokens_view(out@));
    out
}

/// Colours a code block for the preview, asking `char::is_alphanumeric`
/// of each character and tokenizing with the answers.
pub fn highlight_simple_rust(code: &str, p: &Palette) -> (toks: Vec<CodeToken>)
    ensures
        tokens_view(toks@) == code_tokens(code@, *p),
{
    let c = chars_of(code);
    let mut alnum: Vec<bool> = Vec::new();
    let mut i: usize = 0;
    while i < c.len()
        invariant
            i <= c@.len(),
            c@ == code@,
            alnum@ == alnum_flags(code@).take(i as int),
        decreases c@.len() - i,
    {
        let a = is_alphanumeric(c[i]);
        alnum.push(a);
        i = i + 1;
        assert(alnum@ =~= alnum_flags(code@).take(i as int));
    }
    assert(alnum@ =~= alnum_flags(code@));
    tokenize_code(code, &alnum, p)
}

/// The texts of the tokens, one after another.
pub open spec fn joined(ts: Seq<(Seq<char>, Rgb)>) -> Seq<char>
    decreases ts.len(),
{
    if ts.len() == 0 {
        seq![]
    } else {
        ts[0].0 + joined(ts.drop_first())
    }
}

/// No token is empty.
pub open spec fn all_nonempty(ts: Seq<(Seq<char>, Rgb)>) -> bool {
    forall|k: int| 0 <= k < ts.len() ==> ts[k].0.len() > 0
}

pub proof fn lemma_joined_concat(a: Seq<(Seq<char>, Rgb)>, b: Seq<(Seq<char>, Rgb)>)
    ensures
        joined(a + b) == joined(a) + joined(b),
    decreases a.len(),
{
    if a.len() == 0 {
        assert(a + b =~= b);
        assert(joined(a) =~= Seq::<char>::empty());
        assert(joined(a) + joined(b) =~= joined(b));
    } else {
        assert((a + b).drop_first() =~= a.drop_first() + b);
        lemma_joined_concat(a.drop_first(), b);
        assert(joined(a + b) =~= joined(a) + joined(b));
    }
}

proof fn lemma_joined_one(t: Seq<char>, color: Rgb)
    ensures
        joined(seq![tok(t, color)]) == t,
{
    let s = seq![tok(t, color)];
    assert(s.drop_first() =~= Seq::<(Seq<char>, Rgb)>::empty());
    assert(joined(s.drop_first()) =~= Seq::<char>::empty());
    assert(joined(s) =~= t);
}

proof fn lemma_word_token(c: Seq<char>, a: int, b: int, p: Palette)
    requires
        0 <= a <= b <= c.len(),
    ensures
        joined(word_token(c, a, b, p)) == c.subrange(a, b),
        all_nonempty(word_token(c, a, b, p)),
{
    if a < b {
        lemma_joined_one(c.subrange(a, b), word_color(c.subrange(a, b), p));
    } else {
        assert(c.subrange(a, b) =~= Seq::<char>::empty());
    }
}

proof fn lemma_tokens_from(c: Seq<char>, alnum: Seq<bool>, w: int, i: int, p: Palette)
    requires
        0 <= w <= i <= c.len(),
    ensures
        joined(tokens_from(c, alnum, w, i, p)) == c.subrange(w, c.len() as int),
        all_nonempty(tokens_from(c, alnum, w, i, p)),
    decreases c.len() - i,
{
    let n = c.len() as int;
    if i >= n {
        lemma_word_token(c, w, n, p);
    } else {
        let pre = word_token(c, w, i, p);
        lemma_word_token(c, w, i, p);
        if c[i] == '"' || (c[i] == '/' && i + 1 < n && c[i + 1] == '/') {
            let e = if c[i] == '"' { string_end(c, i + 1) } else { comment_end(c, i + 1) };
            let color = if c[i] == '"' { p.accent_green } else { p.muted };
            if c[i] == '"' { lemma_string_end(c, i + 1); } else { lemma_comment_end(c, i + 1); }
            let mid = seq![tok(c.subrange(i, e), color)];
            let rest = tokens_from(c, alnum, e, e, p);
            lemma_tokens_from(c, alnum, e, e, p);
            lemma_joined_one(c.subrange(i, e), color);
            lemma_joined_concat(pre, mid);
            lemma_joined_concat(pre + mid, rest);
            assert(tokens_from(c, alnum, w, i, p) == pre + mid + rest);
            assert(c.subrange(w, i) + c.subrange(i, e) + c.subrange(e, n) =~= c.subrange(w, n));
        } else if is_word_at(c, alnum, i) {
            lemma_tokens_from(c, alnum, w, i + 1, p);
        } else {
            let mid = seq![tok(seq![c[i]], symbol_color(c[i], p))];
            let rest = tokens_from(c, alnum, i + 1, i + 1, p);
            lemma_tokens_from(c, alnum, i + 1, i + 1, p);
            lemma_joined_one(seq![c[i]], symbol_color(c[i], p));
            lemma_joined_concat(pre, mid);
            lemma_joined_concat(pre + mid, rest);
            assert(c.subrange(w, i) + seq![c[i]] + c.subrange(i + 1, n) =~= c.subrange(w, n));
        }
    }
}

/// Colouring a code block keeps its text, whatever the alphanumeric answers
/// are: the tokens, read one after another, give back the code, and none of
/// them is empty.
pub proof fn law_code_tokens_cover(c: Seq<char>, alnum: Seq<bool>, p: Palette)
    ensures
        joined(tokens_from(c, alnum, 0, 0, p)) == c,
        all_nonempty(tokens_from(c, alnum, 0, 0, p)),
        joined(code_tokens(c, p)) == c,
        all_nonempty(code_tokens(c, p)),
{
    lemma_tokens_from(c, alnum, 0, 0, p);
    lemma_tokens_from(c, alnum_flags(c), 0, 0, p);
    assert(c.subrange(0, c.len() as int) =~= c);
}


/// A token that starts with a slash is either the lone slash, in the colour
/// of a stand-alone symbol, or a line comment, which starts with two slashes.
pub open spec fn slash_token_ok(tk: (Seq<char>, Rgb), p: Palette) -> bool {
    tk.0.len() > 0 && tk.0[0] == '/' ==> {
        ||| tk.0 == seq!['/'] && tk.1 == symbol_color('/', p)
        ||| tk.0.len() >= 2 && tk.0[1] == '/'
    }
}

pub open spec fn all_slash_ok(ts: Seq<(Seq<char>, Rgb)>, p: Palette) -> bool {
    forall|k: int| 0 <= k < ts.len() ==> slash_token_ok(#[trigger] ts[k], p)
}

proof fn lemma_slash_concat(a: Seq<(Seq<char>, Rgb)>, b: Seq<(Seq<char>, Rgb)>, p: Palette)
    requires
        all_slash_ok(a, p),
        all_slash_ok(b, p),
    ensures
        all_slash_ok(a + b, p),
{
    assert forall|k: int| 0 <= k < (a + b).len() implies slash_token_ok(#[trigger] (a + b)[k], p) by {
        if k < a.len() {
            assert((a + b)[k] == a[k]);
        } else {
            assert((a + b)[k] == b[k - a.len()]);
        }
    }
}

proof fn lemma_slash_word(c: Seq<char>, alnum: Seq<bool>, w: int, i: int, p: Palette)
    requires
        0 <= w <= i <= c.len(),
        forall|j: int| w <= j < i ==> is_word_at(c, alnum, j),
        forall|j: int| 0 <= j < c.len() && c[j] == '/' ==> !(j < alnum.len() && alnum[j]),
    ensures
        all_slash_ok(word_token(c, w, i, p), p),
{
    if w < i {
        assert(is_word_at(c, alnum, w));
        assert(c.subrange(w, i)[0] == c[w]);
    }
}

proof fn lemma_slash_tokens(c: Seq<char>, alnum: Seq<bool>, w: int, i: int, p: Palette)
    requires
        0 <= w <= i <= c.len(),
        forall|j: int| w <= j < i ==> is_word_at(c, alnum, j),
        forall|j: int| 0 <= j < c.len() && c[j] == '/' ==> !(j < alnum.len() && alnum[j]),
    ensures
        all_slash_ok(tokens_from(c, alnum, w, i, p), p),
    decreases c.len() - i,
{
    let n = c.len() as int;
    if i >= n {
        lemma_slash_word(c, alnum, w, n, p);
    } else {
        lemma_slash_word(c, alnum, w, i, p);
        let pre = word_token(c, w, i, p);
        if c[i] == '"' {
            let e = string_end(c, i + 1);
            lemma_string_end(c, i + 1);
            let mid = seq![tok(c.subrange(i, e), p.accent_green)];
            assert(mid[0].0[0] == '"');
            lemma_slash_tokens(c, alnum, e, e, p);
            lemma_slash_concat(pre, mid, p);
            lemma_slash_concat(pre + mid, tokens_from(c, alnum, e, e, p), p);
        } else if c[i] == '/' && i + 1 < n && c[i + 1] == '/' {
            let e = comment_end(c, i + 1);
            crate::editor::lemma_find_char_bounds(c, '\n', i + 1, n);
            crate::editor::lemma_find_char_bounds(c, '\n', i + 2, n);
            assert(e >= i + 2);
            let mid = seq![tok(c.subrange(i, e), p.muted)];
            assert(mid[0].0[1] == c[i + 1]);
            lemma_slash_tokens(c, alnum, e, e, p);
            lemma_slash_concat(pre, mid, p);
            lemma_slash_concat(pre + mid, tokens_from(c, alnum, e, e, p), p);
        } else if is_word_at(c, alnum, i) {
            lemma_slash_tokens(c, alnum, w, i + 1, p);
        } else {
            let mid = seq![tok(seq![c[i]], symbol_color(c[i], p))];
            lemma_slash_tokens(c, alnum, i + 1, i + 1, p);
            lemma_slash_concat(pre, mid, p);
            lemma_slash_concat(pre + mid, tokens_from(c, alnum, i + 1, i + 1, p), p);
        }
    }
}

/// A slash starts a line comment only when a second slash follows it: a
/// lone slash, such as a division, is a token of its own in the colour of a
/// stand-alone symbol, and every token that starts with a slash is either
/// that lone slash or starts with two. This holds whenever the slash is not
/// reported alphanumeric.
pub proof fn law_lone_slash_is_a_symbol(c: Seq<char>, alnum: Seq<bool>, p: Palette)
    requires
        forall|j: int| 0 <= j < c.len() && c[j] == '/' ==> !(j < alnum.len() && alnum[j]),
    ensures
        all_slash_ok(tokens_from(c, alnum, 0, 0, p), p),
{
    lemma_slash_tokens(c, alnum, 0, 0, p);
}

} // verus!

//! Character and UTF-8 utilities shared by the editor and the preview.
use vstd::prelude::*;
use vstd::utf8::*;
use vstd::string::StringSliceAdditionalSpecFns;
use vstd::std_specs::iter::IteratorSpec;

verus! {

broadcast use vstd::string::group_string_axioms;

/// Number of bytes that `c` takes in UTF-8.
pub open spec fn char_width(c: char) -> nat {
    encode_scalar(c as u32).len()
}

/// UTF-8 encoding distributes over concatenation.
pub proof fn lemma_encode_concat(a: Seq<char>, b: Seq<char>)
    ensures
        encode_utf8(a + b) == encode_utf8(a) + encode_utf8(b),
    decreases a.len(),
{
    if a.len() == 0 {
        assert(a + b =~= b);
    } else {
        assert((a + b).drop_first() =~= a.drop_first() + b);
        lemma_encode_concat(a.drop_first(), b);
    }
}

/// The encoding of a prefix extended by one character.
pub proof fn lemma_encode_push(s: Seq<char>, i: int)
    requires
        0 <= i < s.len(),
    ensures
        encode_utf8(s.take(i + 1)).len() == encode_utf8(s.take(i)).len() + char_width(s[i]),
{
    assert(s.take(i + 1) =~= s.take(i) + seq![s[i]]);
    lemma_encode_concat(s.take(i), seq![s[i]]);
    let one = seq![s[i]];
    assert(one.drop_first() =~= Seq::<char>::empty());
    assert(encode_utf8(one) == encode_scalar(s[i] as u32) + encode_utf8(one.drop_first()));
    assert(encode_utf8(one) =~= encode_scalar(s[i] as u32));
}

/// The encoding of a prefix is no longer than the encoding of the whole.
pub proof fn lemma_encode_prefix_len(s: Seq<char>, i: int)
    requires
        0 <= i <= s.len(),
    ensures
        encode_utf8(s.take(i)).len() <= encode_utf8(s).len(),
{
    assert(s =~= s.take(i) + s.skip(i));
    lemma_encode_concat(s.take(i), s.skip(i));
}

/// A character takes at least one byte.
pub proof fn lemma_encode_len(s: Seq<char>)
    ensures
        encode_utf8(s).len() >= s.len(),
    decreases s.len(),
{
    if s.len() > 0 {
        lemma_encode_len(s.drop_first());
        char_is_scalar(s[0]);
    }
}

/// UTF-8 width of a character.
fn utf8_width(c: char) -> (w: usize)
    ensures
        w == char_width(c),
        1 <= w <= 4,
{
    let v = c as u32;
    proof {
        char_is_scalar(c);
    }
    if v <= 0x7F {
        1
    } else if v <= 0x7FF {
        2
    } else if v <= 0xFFFF {
        3
    } else {
        4
    }
}

/// Byte offset in `s` of the character with index `char_idx`; the byte
/// length of `s` when `char_idx` is past its last character.
pub fn char_to_byte(s: &str, char_idx: usize) -> (b: usize)
    ensures
        b == encode_utf8(s@.take(if char_idx < s@.len() { char_idx as int } else { s@.len() as int })).len(),
        b <= s.spec_bytes().len(),
        char_idx >= s@.len() ==> b == s.spec_bytes().len(),
{
    let total = s.as_bytes().len();
    let mut it = s.chars();
    let mut i: usize = 0;
    let mut b: usize = 0;
    assert(s@.take(0) =~= Seq::<char>::empty());
    loop
        invariant
            it.remaining() == s@.skip(i as int),
            i <= s@.len(),
            i <= char_idx,
            b == encode_utf8(s@.take(i as int)).len(),
            total == encode_utf8(s@).len(),
        decreases s@.len() - i,
    {
        if i == char_idx {
            proof { lemma_encode_prefix_len(s@, i as int); }
            assert(i == s@.len() ==> s@.take(i as int) =~= s@);
            return b;
        }
        match it.next() {
            Some(c) => {
                proof {
                    lemma_encode_push(s@, i as int);
                    lemma_encode_prefix_len(s@, i + 1);
                }
                b = b + utf8_width(c);
                i = i + 1;
                assert(s@.skip(i - 1).drop_first() =~= s@.skip(i as int));
            },
            None => {
                assert(s@.take(i as int) =~= s@);
                return b;
            },
        }
    }
}


/// `String::push` appends one character.
pub assume_specification[ String::push ](s: &mut String, ch: char)
    ensures
        final(s)@ == old(s)@.push(ch),
;

/// The characters of `s`, in order.
pub fn chars_of(s: &str) -> (v: Vec<char>)
    ensures
        v@ == s@,
{
    let mut it = s.chars();
    let mut v: Vec<char> = Vec::new();
    loop
        invariant
            it.remaining() == s@.skip(v@.len() as int),
            v@ == s@.take(v@.len() as int),
            v@.len() <= s@.len(),
        decreases s@.len() - v@.len(),
    {
        match it.next() {
            Some(c) => {
                let ghost k: int = v@.len() as int;
                assert(s@.skip(k)[0] == s@[k]);
                v.push(c);
                assert(s@.skip(k).drop_first() =~= s@.skip(k + 1));
                assert(v@ =~= s@.take(k + 1));
            },
            None => {
                assert(v@ =~= s@);
                return v;
            },
        }
    }
}

/// A `String` holding the characters `v[from..to]`.
pub fn string_of_range(v: &Vec<char>, from: usize, to: usize) -> (s: String)
    requires
        from <= to <= v@.len(),
    ensures
        s@ == v@.subrange(from as int, to as int),
{
    let mut s = String::new();
    let mut i = from;
    while i < to
        invariant
            from <= i <= to <= v@.len(),
            s@ == v@.subrange(from as int, i as int),
        decreases to - i,
    {
        s.push(v[i]);
        assert(v@.subrange(from as int, i + 1) =~= v@.subrange(from as int, i as int).push(v@[i as int]));
        i = i + 1;
    }
    s
}

/// Unicode `White_Space` characters, the set that `char::is_whitespace` tests.
pub open spec fn is_white_space(c: char) -> bool {
    ||| '\u{9}' <= c <= '\u{d}'
    ||| c == ' '
    ||| c == '\u{85}'
    ||| c == '\u{a0}'
    ||| c == '\u{1680}'
    ||| '\u{2000}' <= c <= '\u{200a}'
    ||| c == '\u{2028}'
    ||| c == '\u{2029}'
    ||| c == '\u{202f}'
    ||| c == '\u{205f}'
    ||| c == '\u{3000}'
}

/// Tests a character for Unicode `White_Space`.
pub fn white_space(c: char) -> (b: bool)
    ensures
        b == is_white_space(c),
{
    ('\u{9}' <= c && c <= '\u{d}') || c == ' ' || c == '\u{85}' || c == '\u{a0}'
        || c == '\u{1680}' || ('\u{2000}' <= c && c <= '\u{200a}') || c == '\u{2028}'
        || c == '\u{2029}' || c == '\u{202f}' || c == '\u{205f}' || c == '\u{3000}'
}


/// Number of white space characters that `s` starts with.
pub open spec fn leading_white(s: Seq<char>) -> nat
    decreases s.len(),
{
    if s.len() == 0 || !is_white_space(s[0]) {
        0
    } else {
        1 + leading_white(s.drop_first())
    }
}

/// Number of white space characters that `s` ends with.
pub open spec fn trailing_white(s: Seq<char>) -> nat
    decreases s.len(),
{
    if s.len() == 0 || !is_white_space(s.last()) {
        0
    } else {
        1 + trailing_white(s.drop_last())
    }
}

/// `s` without white space at either end, as `str::trim` gives it.
pub open spec fn trimmed(s: Seq<char>) -> Seq<char> {
    if leading_white(s) == s.len() {
        seq![]
    } else {
        s.subrange(leading_white(s) as int, s.len() - trailing_white(s))
    }
}

/// `s` without the line breaks it ends with, as `trim_end_matches('\n')` gives it.
pub open spec fn without_final_newlines(s: Seq<char>) -> Seq<char>
    decreases s.len(),
{
    if s.len() > 0 && s.last() == '\n' {
        without_final_newlines(s.drop_last())
    } else {
        s
    }
}

pub proof fn lemma_leading_white(s: Seq<char>, k: int)
    requires
        0 <= k <= s.len(),
        forall|j: int| 0 <= j < k ==> is_white_space(s[j]),
        k == s.len() || !is_white_space(s[k]),
    ensures
        leading_white(s) == k,
    decreases k,
{
    if k > 0 {
        lemma_leading_white(s.drop_first(), k - 1);
    }
}

pub proof fn lemma_trailing_white(s: Seq<char>, k: int)
    requires
        0 <= k <= s.len(),
        forall|j: int| k <= j < s.len() ==> is_white_space(s[j]),
        k == 0 || !is_white_space(s[k - 1]),
    ensures
        trailing_white(s) == s.len() - k,
    decreases s.len() - k,
{
    if k < s.len() {
        lemma_trailing_white(s.drop_last(), k);
    }
}

pub proof fn lemma_final_newlines(s: Seq<char>, k: int)
    requires
        0 <= k <= s.len(),
        forall|j: int| k <= j < s.len() ==> s[j] == '\n',
        k == 0 || s[k - 1] != '\n',
    ensures
        without_final_newlines(s) == s.take(k),
    decreases s.len() - k,
{
    if k < s.len() {
        lemma_final_newlines(s.drop_last(), k);
        assert(s.drop_last().take(k) =~= s.take(k));
    } else {
        assert(s.take(k) =~= s);
    }
}

/// What `str::to_lowercase` gives for a string: its lowercase mapping under
/// Unicode's rules, where a capital sigma's mapping depends on its neighbours.
pub uninterp spec fn lowercased(s: Seq<char>) -> Seq<char>;

/// `str::to_lowercase`. Its result, a function of the string alone, is
/// named and not restated.
#[verifier::external_body]
pub(crate) fn lowercase(s: &str) -> (r: String)
    ensures
        r@ == lowercased(s@),
{
    s.to_lowercase()
}

/// The trimmed string's bounds `(start, end)` in `v`, by character index.
pub fn trim_bounds(v: &Vec<char>) -> (r: (usize, usize))
    ensures
        r.0 <= r.1 <= v@.len(),
        trimmed(v@) == v@.subrange(r.0 as int, r.1 as int),
{
    let n = v.len();
    let mut a: usize = 0;
    while a < n && white_space(v[a])
        invariant
            a <= n == v@.len(),
            forall|j: int| 0 <= j < a ==> is_white_space(v@[j]),
        decreases n - a,
    {
        a = a + 1;
    }
    proof { lemma_leading_white(v@, a as int); }
    if a == n {
        assert(v@.subrange(a as int, a as int) =~= Seq::<char>::empty());
        return (a, a);
    }
    let mut b: usize = n;
    while b > a && white_space(v[b - 1])
        invariant
            a < n == v@.len(),
            a <= b <= n,
            !is_white_space(v@[a as int]),
            forall|j: int| b <= j < n ==> is_white_space(v@[j]),
        decreases b,
    {
        b = b - 1;
    }
    proof { lemma_trailing_white(v@, b as int); }
    (a, b)
}

/// End of `v` once the line breaks it ends with are left out.
pub fn final_newlines_start(v: &Vec<char>) -> (k: usize)
    ensures
        k <= v@.len(),
        without_final_newlines(v@) == v@.take(k as int),
{
    let mut k = v.len();
    while k > 0 && v[k - 1] == '\n'
        invariant
            k <= v@.len(),
            forall|j: int| k <= j < v@.len() ==> v@[j] == '\n',
        decreases k,
    {
        k = k - 1;
    }
    proof { lemma_final_newlines(v@, k as int); }
    k
}

} // verus!

//! Character-level helpers shared by the lexer and the rewrite passes.
//!
//! Text is modelled as `Seq<char>`, the view of `str` and `String`. Offsets
//! that come from the pattern matcher are byte offsets into the UTF-8
//! encoding; [`byte_slice`] is the bridge between the two.

use vstd::prelude::*;
use vstd::string::StringSliceAdditionalSpecFns;
use vstd::utf8::{decode_utf8, encode_utf8, is_char_boundary, valid_utf8};

verus! {

/// Whether `c` has the Unicode `White_Space` property, as `char::is_whitespace`
/// decides it.
pub uninterp spec fn is_whitespace(c: char) -> bool;

/// `char::is_whitespace`: the result is named [`is_whitespace`]; nothing more
/// is claimed about which characters count as whitespace.
#[verifier::external_body]
pub(crate) fn char_is_whitespace(c: char) -> (b: bool)
    ensures
        b == is_whitespace(c),
{
    c.is_whitespace()
}

/// A space or a tab: the characters that make up manual indentation.
pub open spec fn is_indent(c: char) -> bool {
    c == ' ' || c == '\t'
}

/// The number of whitespace characters at the front of `s`.
pub open spec fn leading_whitespace(s: Seq<char>) -> nat
    decreases s.len(),
{
    if s.len() > 0 && is_whitespace(s[0]) {
        1 + leading_whitespace(s.drop_first())
    } else {
        0
    }
}

/// The number of whitespace characters at the back of `s`.
pub open spec fn trailing_whitespace(s: Seq<char>) -> nat
    decreases s.len(),
{
    if s.len() > 0 && is_whitespace(s.last()) {
        1 + trailing_whitespace(s.drop_last())
    } else {
        0
    }
}

/// The number of spaces and tabs at the back of `s`.
pub open spec fn trailing_indent(s: Seq<char>) -> nat
    decreases s.len(),
{
    if s.len() > 0 && is_indent(s.last()) {
        1 + trailing_indent(s.drop_last())
    } else {
        0
    }
}

/// `s` without its trailing whitespace.
pub open spec fn trim_end(s: Seq<char>) -> Seq<char> {
    s.take(s.len() - trailing_whitespace(s))
}

/// `s` without its leading whitespace.
pub open spec fn trim_start(s: Seq<char>) -> Seq<char> {
    s.skip(leading_whitespace(s) as int)
}

/// `s` without leading and trailing whitespace.
pub open spec fn trim(s: Seq<char>) -> Seq<char> {
    trim_end(trim_start(s))
}

/// `s` without the spaces and tabs at its end.
pub open spec fn strip_indent(s: Seq<char>) -> Seq<char> {
    s.take(s.len() - trailing_indent(s))
}

/// Every character of `s` is whitespace.
pub open spec fn is_blank(s: Seq<char>) -> bool {
    forall|i: int| 0 <= i < s.len() ==> is_whitespace(#[trigger] s[i])
}

/// The number of line feeds in `s`.
pub open spec fn newlines(s: Seq<char>) -> nat
    decreases s.len(),
{
    if s.len() == 0 {
        0
    } else {
        newlines(s.drop_last()) + if s.last() == '\n' {
            1nat
        } else {
            0nat
        }
    }
}

/// The characters encoded by bytes `a..b` of the UTF-8 encoding of `text`.
pub open spec fn byte_slice(text: Seq<char>, a: int, b: int) -> Seq<char> {
    decode_utf8(encode_utf8(text).subrange(a, b))
}

/// The length in bytes of the UTF-8 encoding of `text`.
pub open spec fn byte_len(text: Seq<char>) -> nat {
    encode_utf8(text).len()
}

/// `i` is a byte offset at which `text` can be cut without splitting a
/// character.
pub open spec fn on_boundary(text: Seq<char>, i: int) -> bool {
    0 <= i <= byte_len(text) && is_char_boundary(encode_utf8(text), i)
}

/// `a..b` is a byte range of `text` that starts and ends between characters.
pub open spec fn span_ok(text: Seq<char>, a: int, b: int) -> bool {
    a <= b && on_boundary(text, a) && on_boundary(text, b)
}

/// Line feeds are counted piece by piece.
pub proof fn lemma_newlines_concat(a: Seq<char>, b: Seq<char>)
    ensures
        newlines(a + b) == newlines(a) + newlines(b),
    decreases b.len(),
{
    if b.len() == 0 {
        assert(a + b =~= a);
    } else {
        assert((a + b).drop_last() =~= a + b.drop_last());
        lemma_newlines_concat(a, b.drop_last());
    }
}

/// A text has no more line feeds than characters.
pub proof fn lemma_newlines_bound(s: Seq<char>)
    ensures
        newlines(s) <= s.len(),
    decreases s.len(),
{
    if s.len() > 0 {
        lemma_newlines_bound(s.drop_last());
    }
}

/// Inside a valid encoding, a boundary of the whole is a boundary of any
/// boundary-delimited part that contains it.
proof fn lemma_boundary_in_part(bytes: Seq<u8>, a: int, b: int, c: int)
    requires
        valid_utf8(bytes),
        0 <= a <= b <= c <= bytes.len(),
        is_char_boundary(bytes, a),
        is_char_boundary(bytes, b),
        is_char_boundary(bytes, c),
    ensures
        valid_utf8(bytes.subrange(a, c)),
        is_char_boundary(bytes.subrange(a, c), b - a),
{
    let head = bytes.subrange(0, c);
    vstd::utf8::valid_utf8_split(bytes, c);
    if a < c {
        vstd::utf8::is_char_boundary_iff_not_is_continuation_byte(bytes, a);
        vstd::utf8::is_char_boundary_iff_not_is_continuation_byte(head, a);
    } else {
        vstd::utf8::is_char_boundary_start_end_of_seq(head);
    }
    vstd::utf8::valid_utf8_split(head, a);
    let part = bytes.subrange(a, c);
    assert(part =~= head.subrange(a, head.len() as int));
    if b < c {
        vstd::utf8::is_char_boundary_iff_not_is_continuation_byte(bytes, b);
        vstd::utf8::is_char_boundary_iff_not_is_continuation_byte(part, b - a);
    } else {
        vstd::utf8::is_char_boundary_start_end_of_seq(part);
    }
}

/// Adjacent byte slices concatenate.
pub proof fn lemma_byte_slice_concat(text: Seq<char>, a: int, b: int, c: int)
    requires
        span_ok(text, a, b),
        span_ok(text, b, c),
    ensures
        byte_slice(text, a, c) == byte_slice(text, a, b) + byte_slice(text, b, c),
{
    let bytes = encode_utf8(text);
    vstd::utf8::encode_utf8_valid_utf8(text);
    lemma_boundary_in_part(bytes, a, b, c);
    let part = bytes.subrange(a, c);
    vstd::utf8::decode_utf8_split(part, b - a);
    assert(part.subrange(0, b - a) =~= bytes.subrange(a, b));
    assert(part.subrange(b - a, part.len() as int) =~= bytes.subrange(b, c));
}

/// The byte slice that covers the whole text is the text.
pub proof fn lemma_byte_slice_whole(text: Seq<char>)
    ensures
        byte_slice(text, 0, byte_len(text) as int) == text,
        on_boundary(text, 0),
        on_boundary(text, byte_len(text) as int),
{
    let bytes = encode_utf8(text);
    vstd::utf8::encode_utf8_valid_utf8(text);
    vstd::utf8::encode_utf8_decode_utf8(text);
    vstd::utf8::is_char_boundary_start_end_of_seq(bytes);
    assert(bytes.subrange(0, bytes.len() as int) =~= bytes);
}

/// A byte slice has at most as many characters as the text it is cut from.
pub proof fn lemma_byte_slice_len(text: Seq<char>, a: int, b: int)
    requires
        span_ok(text, a, b),
    ensures
        byte_slice(text, a, b).len() <= text.len(),
{
    lemma_byte_slice_whole(text);
    lemma_byte_slice_concat(text, 0, a, b);
    lemma_byte_slice_concat(text, 0, b, byte_len(text) as int);
}

/// The characters of `s`, one by one.
pub fn chars_of(s: &str) -> (r: Vec<char>)
    ensures
        r@ == s@,
{
    let mut out: Vec<char> = Vec::new();
    for c in it: s.chars()
        invariant
            out@ == it.seq().take(it.index() as int),
            it.seq() == s@,
    {
        out.push(c);
    }
    out
}

/// The part of `s` between byte offsets `a` and `b`.
pub fn cut<'a>(s: &'a str, a: usize, b: usize) -> (r: &'a str)
    requires
        span_ok(s@, a as int, b as int),
    ensures
        r@ == byte_slice(s@, a as int, b as int),
{
    proof {
        vstd::utf8::encode_utf8_valid_utf8(s@);
    }
    let (head, _) = s.split_at(b);
    proof {
        let bytes = encode_utf8(s@);
        vstd::utf8::is_char_boundary_start_end_of_seq(bytes);
        lemma_boundary_in_part(bytes, 0, a as int, b as int);
        assert(encode_utf8(head@) =~= bytes.subrange(0, b as int));
    }
    let (_, r) = head.split_at(a);
    proof {
        vstd::utf8::encode_utf8_decode_utf8(r@);
        assert(encode_utf8(r@) =~= encode_utf8(s@).subrange(a as int, b as int));
    }
    r
}

/// Whether two strings hold the same characters.
pub fn str_eq(a: &str, b: &str) -> (r: bool)
    ensures
        r == (a@ == b@),
{
    let x = a.as_bytes();
    let y = b.as_bytes();
    proof {
        vstd::utf8::encode_utf8_decode_utf8(a@);
        vstd::utf8::encode_utf8_decode_utf8(b@);
    }
    if x.len() != y.len() {
        return false;
    }
    let mut i: usize = 0;
    while i < x.len()
        invariant
            i <= x.len(),
            x.len() == y.len(),
            x@ == encode_utf8(a@),
            y@ == encode_utf8(b@),
            forall|j: int| 0 <= j < i ==> x@[j] == y@[j],
        decreases x.len() - i,
    {
        if x[i] != y[i] {
            return false;
        }
        i += 1;
    }
    assert(x@ =~= y@);
    true
}

/// Whether `s` begins with `prefix`.
pub fn has_prefix(s: &Vec<char>, prefix: &Vec<char>) -> (r: bool)
    ensures
        r == prefix@.is_prefix_of(s@),
{
    if prefix.len() > s.len() {
        return false;
    }
    let mut i: usize = 0;
    while i < prefix.len()
        invariant
            i <= prefix.len() <= s.len(),
            forall|j: int| 0 <= j < i ==> s@[j] == prefix@[j],
        decreases prefix.len() - i,
    {
        if s[i] != prefix[i] {
            assert(s@.subrange(0, prefix@.len() as int)[i as int] != prefix@[i as int]);
            return false;
        }
        i += 1;
    }
    assert(prefix@ =~= s@.subrange(0, prefix@.len() as int));
    true
}

/// Counts the line feeds in `s`.
pub fn count_newlines(s: &Vec<char>) -> (n: usize)
    ensures
        n == newlines(s@),
{
    let mut n: usize = 0;
    let mut i: usize = 0;
    while i < s.len()
        invariant
            i <= s.len(),
            n == newlines(s@.take(i as int)),
            n <= i,
        decreases s.len() - i,
    {
        assert(s@.take(i + 1).drop_last() =~= s@.take(i as int));
        if s[i] == '\n' {
            n += 1;
        }
        i += 1;
    }
    assert(s@.take(s.len() as int) =~= s@);
    n
}

/// Whether `s` holds nothing but whitespace.
pub fn blank(s: &Vec<char>) -> (r: bool)
    ensures
        r == is_blank(s@),
{
    let mut i: usize = 0;
    while i < s.len()
        invariant
            i <= s.len(),
            forall|j: int| 0 <= j < i ==> is_whitespace(#[trigger] s@[j]),
        decreases s.len() - i,
    {
        if !char_is_whitespace(s[i]) {
            return false;
        }
        i += 1;
    }
    true
}

proof fn lemma_leading_step(s: Seq<char>, i: int)
    requires
        0 <= i < s.len(),
        is_whitespace(s[i]),
    ensures
        leading_whitespace(s.skip(i)) == 1 + leading_whitespace(s.skip(i + 1)),
{
    assert(s.skip(i).drop_first() =~= s.skip(i + 1));
}

/// The number of whitespace characters at the front of `s`.
pub fn count_leading_whitespace(s: &Vec<char>) -> (n: usize)
    ensures
        n == leading_whitespace(s@),
        n <= s.len(),
{
    let mut i: usize = 0;
    assert(s@.skip(0) =~= s@);
    while i < s.len() && char_is_whitespace(s[i])
        invariant
            i <= s.len(),
            leading_whitespace(s@) == i + leading_whitespace(s@.skip(i as int)),
        decreases s.len() - i,
    {
        proof {
            lemma_leading_step(s@, i as int);
        }
        i += 1;
    }
    i
}

/// The length of `s[from..]` once its trailing whitespace is dropped, counted
/// from the start of `s`: the exclusive end of the trimmed text.
pub fn trimmed_end(s: &Vec<char>, from: usize) -> (end: usize)
    requires
        from <= s.len(),
    ensures
        from <= end <= s.len(),
        end == s.len() - trailing_whitespace(s@.skip(from as int)),
{
    let mut j: usize = s.len();
    assert(s@.subrange(from as int, j as int) =~= s@.skip(from as int));
    while j > from && char_is_whitespace(s[j - 1])
        invariant
            from <= j <= s.len(),
            trailing_whitespace(s@.skip(from as int)) == (s.len() - j) + trailing_whitespace(
                s@.subrange(from as int, j as int),
            ),
        decreases j,
    {
        assert(s@.subrange(from as int, j as int).drop_last() =~= s@.subrange(
            from as int,
            j - 1,
        ));
        j -= 1;
    }
    j
}

/// The length of `s` once the spaces and tabs at its end are dropped.
pub fn unindented_len(s: &Vec<char>) -> (end: usize)
    ensures
        end <= s.len(),
        end == s.len() - trailing_indent(s@),
{
    let mut j: usize = s.len();
    assert(s@.take(j as int) =~= s@);
    while j > 0 && (s[j - 1] == ' ' || s[j - 1] == '\t')
        invariant
            j <= s.len(),
            trailing_indent(s@) == (s.len() - j) + trailing_indent(s@.take(j as int)),
        decreases j,
    {
        assert(s@.take(j as int).drop_last() =~= s@.take(j - 1));
        j -= 1;
    }
    j
}

/// A copy of `s` as an owned string.
pub fn owned(s: &str) -> (r: String)
    ensures
        r@ == s@,
{
    s.to_owned()
}

/// The characters `from..to` of `s` as an owned string.
pub fn substring(s: &str, from: usize, to: usize) -> (r: String)
    requires
        from <= to <= s@.len(),
    ensures
        r@ == s@.subrange(from as int, to as int),
{
    s.substring_char(from, to).to_owned()
}

/// `s` without leading and trailing whitespace.
pub fn trimmed(s: &str) -> (r: String)
    ensures
        r@ == trim(s@),
{
    let v = chars_of(s);
    let a = count_leading_whitespace(&v);
    let b = trimmed_end(&v, a);
    proof {
        let t = s@.skip(a as int);
        assert(trim(s@) =~= s@.subrange(a as int, b as int));
    }
    substring(s, a, b)
}

/// `s` without trailing whitespace.
pub fn trimmed_at_end(s: &str) -> (r: String)
    ensures
        r@ == trim_end(s@),
{
    let v = chars_of(s);
    let b = trimmed_end(&v, 0);
    proof {
        assert(s@.skip(0) =~= s@);
        assert(trim_end(s@) =~= s@.subrange(0, b as int));
    }
    substring(s, 0, b)
}

/// `s` without the spaces and tabs at its end.
pub fn unindented(s: &str) -> (r: String)
    ensures
        r@ == strip_indent(s@),
{
    let v = chars_of(s);
    let b = unindented_len(&v);
    proof {
        assert(strip_indent(s@) =~= s@.subrange(0, b as int));
    }
    substring(s, 0, b)
}

/// `a` followed by `b`.
pub fn concat(a: &str, b: &str) -> (r: String)
    ensures
        r@ == a@ + b@,
{
    let mut out = a.to_owned();
    out.append(b);
    out
}

} // verus!

//! Byte-string utilities: lines, whitespace-separated fields, the tokens of a
//! text in UTF-8, and prefixes.

use vstd::prelude::*;
use vstd::string::StringSliceAdditionalSpecFns;
use vstd::utf8::{
    encode_scalar, has_width_1_encoding, has_width_2_encoding, has_width_3_encoding, valid_utf8,
};

verus! {

/// The horizontal tab, the first of the five control bytes that are
/// whitespace.
pub const TAB: u8 = 0x09;

/// The line feed, which ends a line.
pub const LINE_FEED: u8 = 0x0A;

/// The carriage return, the last of the five control bytes that are
/// whitespace.
pub const CARRIAGE_RETURN: u8 = 0x0D;

/// The space.
pub const SPACE: u8 = 0x20;

/// The ASCII whitespace bytes: tab, line feed, vertical tab, form feed,
/// carriage return and space.
pub open spec fn is_space(b: u8) -> bool {
    (TAB <= b && b <= CARRIAGE_RETURN) || b == SPACE
}

/// Whether `b` is an ASCII whitespace byte.
pub fn is_space_byte(b: u8) -> (r: bool)
    ensures
        r == is_space(b),
{
    (TAB <= b && b <= CARRIAGE_RETURN) || b == SPACE
}

/// The length of the longest prefix of `s` that holds no whitespace.
pub open spec fn word_len(s: Seq<u8>) -> nat
    decreases s.len(),
{
    if s.len() == 0 || is_space(s[0]) {
        0
    } else {
        1 + word_len(s.skip(1))
    }
}

/// The whitespace-separated fields of `s`, in order. Runs of whitespace
/// separate fields, so no field is empty.
pub open spec fn fields(s: Seq<u8>) -> Seq<Seq<u8>>
    decreases s.len(),
    via fields_decreases
{
    if s.len() == 0 {
        Seq::empty()
    } else if is_space(s[0]) {
        fields(s.skip(1))
    } else {
        seq![s.take(word_len(s) as int)] + fields(s.skip(word_len(s) as int))
    }
}

#[via_fn]
proof fn fields_decreases(s: Seq<u8>) {
    lemma_word_len_bounds(s);
}

/// A word is no longer than the sequence it starts, and is not empty where the
/// sequence starts with a byte that is no whitespace.
pub proof fn lemma_word_len_bounds(s: Seq<u8>)
    ensures
        word_len(s) <= s.len(),
        s.len() > 0 && !is_space(s[0]) ==> word_len(s) >= 1,
    decreases s.len(),
{
    if s.len() > 0 && !is_space(s[0]) {
        lemma_word_len_bounds(s.skip(1));
    }
}

/// Where the bytes of `s` from `i` up to `j` hold no whitespace and the word
/// ends at `j`, the word that starts at `i` has `j - i` bytes.
pub proof fn lemma_word_len_scan(s: Seq<u8>, i: int, j: int)
    requires
        0 <= i <= j <= s.len(),
        forall|k: int| i <= k < j ==> !is_space(s[k]),
        j == s.len() || is_space(s[j]),
    ensures
        word_len(s.skip(i)) == j - i,
    decreases j - i,
{
    if i < j {
        lemma_word_len_scan(s, i + 1, j);
        assert(s.skip(i).skip(1) =~= s.skip(i + 1));
    }
}

/// The byte sequences that the vectors of `v` hold.
pub open spec fn byte_views(v: Seq<Vec<u8>>) -> Seq<Seq<u8>> {
    Seq::new(v.len(), |i: int| v[i]@)
}

/// A copy of the bytes of `s` from `from` up to `to`.
pub fn copy_range(s: &[u8], from: usize, to: usize) -> (r: Vec<u8>)
    requires
        from <= to <= s.len(),
    ensures
        r@ == s@.subrange(from as int, to as int),
{
    let mut r: Vec<u8> = Vec::new();
    let mut i: usize = from;
    while i < to
        invariant
            from <= i <= to <= s.len(),
            r@ == s@.subrange(from as int, i as int),
        decreases to - i,
    {
        r.push(s[i]);
        i += 1;
    }
    r
}

/// Splits `s` into its whitespace-separated fields.
pub fn split_fields(s: &[u8]) -> (r: Vec<Vec<u8>>)
    ensures
        byte_views(r@) == fields(s@),
{
    let mut out: Vec<Vec<u8>> = Vec::new();
    let mut i: usize = 0;
    assert(s@.skip(0) =~= s@);
    while i < s.len()
        invariant
            i <= s.len(),
            byte_views(out@) + fields(s@.skip(i as int)) == fields(s@),
        decreases s.len() - i,
    {
        if is_space_byte(s[i]) {
            assert(s@.skip(i as int).skip(1) =~= s@.skip(i + 1));
            i += 1;
        } else {
            let start: usize = i;
            while i < s.len() && !is_space_byte(s[i])
                invariant
                    start <= i <= s.len(),
                    forall|k: int| start <= k < i ==> !is_space(s@[k]),
                decreases s.len() - i,
            {
                i += 1;
            }
            let word = copy_range(s, start, i);
            proof {
                lemma_word_len_scan(s@, start as int, i as int);
                let rest = s@.skip(start as int);
                assert(rest.take((i - start) as int) =~= word@);
                assert(rest.skip((i - start) as int) =~= s@.skip(i as int));
            }
            out.push(word);
        }
    }
    out
}

/// The number of bytes of `s` that stand before the first byte equal to
/// `stop`; the length of `s` where no byte is.
pub open spec fn offset_of(s: Seq<u8>, stop: u8) -> nat
    decreases s.len(),
{
    if s.len() == 0 || s[0] == stop {
        0
    } else {
        1 + offset_of(s.skip(1), stop)
    }
}

/// An offset lies within the sequence, the byte at it, if there is one, is
/// the byte looked for, and no byte before it is.
pub proof fn lemma_offset_of_bounds(s: Seq<u8>, stop: u8)
    ensures
        offset_of(s, stop) <= s.len(),
        offset_of(s, stop) < s.len() ==> s[offset_of(s, stop) as int] == stop,
        forall|k: int| 0 <= k < offset_of(s, stop) ==> s[k] != stop,
    decreases s.len(),
{
    if s.len() > 0 && s[0] != stop {
        lemma_offset_of_bounds(s.skip(1), stop);
        assert forall|k: int| 0 <= k < offset_of(s, stop) implies s[k] != stop by {
            if k > 0 {
                assert(s.skip(1)[k - 1] == s[k]);
            }
        }
    }
}

/// Where the bytes of `s` from `i` up to `j` differ from `stop` and `j` is
/// the end of `s` or holds `stop`, the offset of `stop` from `i` on is `j - i`.
pub proof fn lemma_offset_of_scan(s: Seq<u8>, stop: u8, i: int, j: int)
    requires
        0 <= i <= j <= s.len(),
        forall|k: int| i <= k < j ==> s[k] != stop,
        j == s.len() || s[j] == stop,
    ensures
        offset_of(s.skip(i), stop) == j - i,
    decreases j - i,
{
    if i < j {
        lemma_offset_of_scan(s, stop, i + 1, j);
        assert(s.skip(i).skip(1) =~= s.skip(i + 1));
    }
}

/// The first position from `from` on at which `s` holds `stop`, or the
/// length of `s`.
pub fn find_byte(s: &[u8], from: usize, stop: u8) -> (j: usize)
    requires
        from <= s.len(),
    ensures
        from <= j <= s.len(),
        j - from == offset_of(s@.skip(from as int), stop),
{
    let mut j: usize = from;
    while j < s.len() && s[j] != stop
        invariant
            from <= j <= s.len(),
            forall|k: int| from <= k < j ==> s@[k] != stop,
        decreases s.len() - j,
    {
        j += 1;
    }
    proof {
        lemma_offset_of_scan(s@, stop, from as int, j as int);
    }
    j
}

/// A line as it is handed out once its line feed is taken away: a carriage
/// return at its end is taken away too.
pub open spec fn without_return(line: Seq<u8>) -> Seq<u8> {
    if line.len() > 0 && line.last() == CARRIAGE_RETURN {
        line.drop_last()
    } else {
        line
    }
}

/// The lines of `s`, in order and without their ends. A line feed ends a
/// line, and a carriage return just before the line feed belongs to the end.
/// What follows the last line feed is a line of its own, as it stands,
/// unless it is empty.
pub open spec fn lines(s: Seq<u8>) -> Seq<Seq<u8>>
    decreases s.len(),
    via lines_decreases
{
    if s.len() == 0 {
        Seq::empty()
    } else if offset_of(s, LINE_FEED) == s.len() {
        seq![s]
    } else {
        let end = offset_of(s, LINE_FEED) as int;
        seq![without_return(s.take(end))] + lines(s.skip(end + 1))
    }
}

#[via_fn]
proof fn lines_decreases(s: Seq<u8>) {
    lemma_offset_of_bounds(s, LINE_FEED);
}

/// Splits `s` into its lines.
pub fn split_lines(s: &[u8]) -> (r: Vec<Vec<u8>>)
    ensures
        byte_views(r@) == lines(s@),
{
    let mut out: Vec<Vec<u8>> = Vec::new();
    let mut i: usize = 0;
    assert(s@.skip(0) =~= s@);
    while i < s.len()
        invariant
            i <= s.len(),
            byte_views(out@) + lines(s@.skip(i as int)) == lines(s@),
        decreases s.len() - i,
    {
        let start: usize = i;
        i = find_byte(s, start, LINE_FEED);
        let end: usize = if i < s.len() && start < i && s[i - 1] == CARRIAGE_RETURN {
            i - 1
        } else {
            i
        };
        let line = copy_range(s, start, end);
        proof {
            let rest = s@.skip(start as int);
            if i < s.len() {
                let whole = rest.take((i - start) as int);
                assert(whole =~= s@.subrange(start as int, i as int));
                assert(without_return(whole) =~= line@);
                assert(rest.skip((i - start) as int + 1) =~= s@.skip(i + 1));
            }
        }
        out.push(line);
        if i < s.len() {
            i += 1;
        }
    }
    out
}

/// The error of `core::str::from_utf8`, `core::str::Utf8Error`. The library
/// only tells it apart from success.
#[verifier::external_type_specification]
#[verifier::external_body]
pub struct ExUtf8Error(core::str::Utf8Error);

/// Calls `core::str::from_utf8`. The contract claims what the function's
/// documentation says: it succeeds exactly on the byte slices that are valid
/// UTF-8, and the string slice it returns is made of the bytes it was given.
#[verifier::external_body]
pub(crate) fn utf8_text<'a>(bytes: &'a [u8]) -> (r: Result<&'a str, core::str::Utf8Error>)
    ensures
        r is Ok <==> valid_utf8(bytes@),
        r matches Ok(text) ==> text.spec_bytes() == bytes@,
{
    core::str::from_utf8(bytes)
}

/// The number of bytes that encode the white-space character with which `s`
/// starts, and zero where `s` starts with none. The white-space characters
/// are those of Unicode, each in its UTF-8 encoding: U+0009 to U+000D and
/// U+0020 in one byte; U+0085 and U+00A0 in two; U+1680, U+2000 to U+200A,
/// U+2028, U+2029, U+202F, U+205F and U+3000 in three.
pub open spec fn white_space_len(s: Seq<u8>) -> nat {
    if s.len() >= 1 && is_space(s[0]) {
        1
    } else if s.len() >= 2 && s[0] == 0xC2 && (s[1] == 0x85 || s[1] == 0xA0) {
        2
    } else if s.len() >= 3 && s[0] == 0xE1 && s[1] == 0x9A && s[2] == 0x80 {
        3
    } else if s.len() >= 3 && s[0] == 0xE2 && s[1] == 0x80 && ((0x80 <= s[2] && s[2] <= 0x8A)
        || s[2] == 0xA8 || s[2] == 0xA9 || s[2] == 0xAF) {
        3
    } else if s.len() >= 3 && s[0] == 0xE2 && s[1] == 0x81 && s[2] == 0x9F {
        3
    } else if s.len() >= 3 && s[0] == 0xE3 && s[1] == 0x80 && s[2] == 0x80 {
        3
    } else {
        0
    }
}

/// Whether the character with the code `c` is white space in Unicode.
pub open spec fn is_white_space(c: u32) -> bool {
    (0x09 <= c && c <= 0x0D) || c == 0x20 || c == 0x85 || c == 0xA0 || c == 0x1680 || (0x2000 <= c
        && c <= 0x200A) || c == 0x2028 || c == 0x2029 || c == 0x202F || c == 0x205F || c == 0x3000
}

proof fn lemma_white_space_in_one_byte(c: u32)
    by (bit_vector)
    requires
        c <= 0x7F,
    ensures
        ({
            let b0 = (c & 0x7F) as u8;
            &&& (((0x09 <= b0 && b0 <= 0x0D) || b0 == 0x20) <==> ((0x09 <= c && c <= 0x0D) || c
                == 0x20))
            &&& b0 != 0xC2 && b0 != 0xE1 && b0 != 0xE2 && b0 != 0xE3
        }),
{
}

proof fn lemma_white_space_in_two_bytes(c: u32)
    by (bit_vector)
    requires
        0x80 <= c && c <= 0x7FF,
    ensures
        ({
            let b0 = 0xC0u8 | ((c >> 6) & 0x1F) as u8;
            let b1 = 0x80u8 | (c & 0x3F) as u8;
            &&& ((b0 == 0xC2 && (b1 == 0x85 || b1 == 0xA0)) <==> (c == 0x85 || c == 0xA0))
            &&& !(0x09 <= b0 && b0 <= 0x0D) && b0 != 0x20
            &&& b0 != 0xE1 && b0 != 0xE2 && b0 != 0xE3
        }),
{
}

proof fn lemma_white_space_in_three_bytes(c: u32)
    by (bit_vector)
    requires
        0x800 <= c && c <= 0xFFFF,
    ensures
        ({
            let b0 = 0xE0u8 | ((c >> 12) & 0x0F) as u8;
            let b1 = 0x80u8 | ((c >> 6) & 0x3F) as u8;
            let b2 = 0x80u8 | (c & 0x3F) as u8;
            &&& ((b0 == 0xE1 && b1 == 0x9A && b2 == 0x80) <==> c == 0x1680)
            &&& ((b0 == 0xE2 && b1 == 0x80 && ((0x80 <= b2 && b2 <= 0x8A) || b2 == 0xA8 || b2
                == 0xA9 || b2 == 0xAF)) <==> ((0x2000 <= c && c <= 0x200A) || c == 0x2028 || c
                == 0x2029 || c == 0x202F))
            &&& ((b0 == 0xE2 && b1 == 0x81 && b2 == 0x9F) <==> c == 0x205F)
            &&& ((b0 == 0xE3 && b1 == 0x80 && b2 == 0x80) <==> c == 0x3000)
            &&& !(0x09 <= b0 && b0 <= 0x0D) && b0 != 0x20 && b0 != 0xC2
        }),
{
}

proof fn lemma_white_space_in_four_bytes(c: u32)
    by (bit_vector)
    requires
        0x10000 <= c && c <= 0x10FFFF,
    ensures
        ({
            let b0 = 0xF0u8 | ((c >> 18) & 0x7) as u8;
            &&& !(0x09 <= b0 && b0 <= 0x0D) && b0 != 0x20
            &&& b0 != 0xC2 && b0 != 0xE1 && b0 != 0xE2 && b0 != 0xE3
        }),
{
}

/// The separators are the white-space characters of Unicode and no others: a
/// text that starts with the UTF-8 encoding of a character starts with white
/// space exactly where that character is white space, and the white space
/// is as long as the character's encoding. What follows the character does
/// not matter.
pub proof fn lemma_white_space_is_unicode(c: char, rest: Seq<u8>)
    ensures
        white_space_len(encode_scalar(c as u32) + rest) == if is_white_space(c as u32) {
            encode_scalar(c as u32).len()
        } else {
            0
        },
{
    let v = c as u32;
    let text = encode_scalar(v) + rest;
    vstd::utf8::char_is_scalar(c);
    if has_width_1_encoding(v) {
        lemma_white_space_in_one_byte(v);
        assert(text[0] == encode_scalar(v)[0]);
    } else if has_width_2_encoding(v) {
        lemma_white_space_in_two_bytes(v);
        assert(text[0] == encode_scalar(v)[0] && text[1] == encode_scalar(v)[1]);
    } else if has_width_3_encoding(v) {
        lemma_white_space_in_three_bytes(v);
        assert(text[0] == encode_scalar(v)[0] && text[1] == encode_scalar(v)[1] && text[2]
            == encode_scalar(v)[2]);
    } else {
        lemma_white_space_in_four_bytes(v);
        assert(text[0] == encode_scalar(v)[0]);
    }
}

/// The number of bytes of `s` that stand before its first white-space
/// character; the length of `s` where it holds none.
pub open spec fn token_len(s: Seq<u8>) -> nat
    decreases s.len(),
{
    if s.len() == 0 || white_space_len(s) > 0 {
        0
    } else {
        1 + token_len(s.skip(1))
    }
}

/// The tokens of a text in UTF-8: what stands between its white-space
/// characters, in order. Runs of white space separate tokens, so no token is
/// empty.
pub open spec fn tokens(s: Seq<u8>) -> Seq<Seq<u8>>
    decreases s.len(),
    via tokens_decreases
{
    if s.len() == 0 {
        Seq::empty()
    } else if white_space_len(s) > 0 {
        tokens(s.skip(white_space_len(s) as int))
    } else {
        seq![s.take(token_len(s) as int)] + tokens(s.skip(token_len(s) as int))
    }
}

#[via_fn]
proof fn tokens_decreases(s: Seq<u8>) {
    lemma_token_len_bounds(s);
}

/// A token is no longer than the text it starts, and is not empty where the
/// text starts with a byte that begins no white-space character.
pub proof fn lemma_token_len_bounds(s: Seq<u8>)
    ensures
        token_len(s) <= s.len(),
        white_space_len(s) <= s.len(),
        s.len() > 0 && white_space_len(s) == 0 ==> token_len(s) >= 1,
    decreases s.len(),
{
    if s.len() > 0 && white_space_len(s) == 0 {
        lemma_token_len_bounds(s.skip(1));
    }
}

/// Where no white-space character starts at the positions of `s` from `i` up
/// to `j` and the token ends at `j`, the token that starts at `i` has `j - i`
/// bytes.
pub proof fn lemma_token_len_scan(s: Seq<u8>, i: int, j: int)
    requires
        0 <= i <= j <= s.len(),
        forall|k: int| i <= k < j ==> white_space_len(#[trigger] s.skip(k)) == 0,
        j == s.len() || white_space_len(s.skip(j)) > 0,
    ensures
        token_len(s.skip(i)) == j - i,
    decreases j - i,
{
    if i < j {
        lemma_token_len_scan(s, i + 1, j);
        assert(s.skip(i).skip(1) =~= s.skip(i + 1));
    }
}

/// The number of bytes that encode the white-space character that starts at
/// position `i` of `s`, and zero where none starts there.
pub fn white_space_at(s: &[u8], i: usize) -> (n: usize)
    requires
        i <= s.len(),
    ensures
        n == white_space_len(s@.skip(i as int)),
        i + n <= s.len(),
{
    let left: usize = s.len() - i;
    proof {
        let rest = s@.skip(i as int);
        assert(left >= 1 ==> rest[0] == s@[i as int]);
        assert(left >= 2 ==> rest[1] == s@[i + 1]);
        assert(left >= 3 ==> rest[2] == s@[i + 2]);
    }
    if left >= 1 && is_space_byte(s[i]) {
        1
    } else if left >= 2 && s[i] == 0xC2 && (s[i + 1] == 0x85 || s[i + 1] == 0xA0) {
        2
    } else if left >= 3 && s[i] == 0xE1 && s[i + 1] == 0x9A && s[i + 2] == 0x80 {
        3
    } else if left >= 3 && s[i] == 0xE2 && s[i + 1] == 0x80 && ((0x80 <= s[i + 2] && s[i + 2]
        <= 0x8A) || s[i + 2] == 0xA8 || s[i + 2] == 0xA9 || s[i + 2] == 0xAF) {
        3
    } else if left >= 3 && s[i] == 0xE2 && s[i + 1] == 0x81 && s[i + 2] == 0x9F {
        3
    } else if left >= 3 && s[i] == 0xE3 && s[i + 1] == 0x80 && s[i + 2] == 0x80 {
        3
    } else {
        0
    }
}

/// Splits a text in UTF-8 into its tokens.
pub fn split_tokens(s: &[u8]) -> (r: Vec<Vec<u8>>)
    ensures
        byte_views(r@) == tokens(s@),
{
    let mut out: Vec<Vec<u8>> = Vec::new();
    let mut i: usize = 0;
    assert(s@.skip(0) =~= s@);
    while i < s.len()
        invariant
            i <= s.len(),
            byte_views(out@) + tokens(s@.skip(i as int)) == tokens(s@),
        decreases s.len() - i,
    {
        let n = white_space_at(s, i);
        if n > 0 {
            assert(s@.skip(i as int).skip(n as int) =~= s@.skip(i + n));
            i += n;
        } else {
            let start: usize = i;
            while i < s.len() && white_space_at(s, i) == 0
                invariant
                    start <= i <= s.len(),
                    forall|k: int| start <= k < i ==> white_space_len(#[trigger] s@.skip(k)) == 0,
                decreases s.len() - i,
            {
                i += 1;
            }
            let token = copy_range(s, start, i);
            proof {
                lemma_token_len_scan(s@, start as int, i as int);
                let rest = s@.skip(start as int);
                assert(rest.take((i - start) as int) =~= token@);
                assert(rest.skip((i - start) as int) =~= s@.skip(i as int));
                assert(byte_views(out@.push(token)) =~= byte_views(out@).push(token@));
            }
            out.push(token);
        }
    }
    out
}

/// Whether `s` starts with the bytes of `prefix`.
pub open spec fn has_prefix(s: Seq<u8>, prefix: Seq<u8>) -> bool {
    s.len() >= prefix.len() && s.take(prefix.len() as int) == prefix
}

/// Whether `s` starts with the bytes of `prefix`.
pub fn starts_with(s: &[u8], prefix: &[u8]) -> (r: bool)
    ensures
        r == has_prefix(s@, prefix@),
{
    if s.len() < prefix.len() {
        return false;
    }
    let mut i: usize = 0;
    while i < prefix.len()
        invariant
            i <= prefix.len() <= s.len(),
            forall|k: int| 0 <= k < i ==> s@[k] == prefix@[k],
        decreases prefix.len() - i,
    {
        if s[i] != prefix[i] {
            return false;
        }
        i += 1;
    }
    assert(s@.take(prefix.len() as int) =~= prefix@);
    true
}

/// Whether `a` and `b` hold the same bytes.
pub fn bytes_eq(a: &[u8], b: &[u8]) -> (r: bool)
    ensures
        r == (a@ == b@),
{
    if a.len() != b.len() {
        return false;
    }
    let mut i: usize = 0;
    while i < a.len()
        invariant
            i <= a.len(),
            a.len() == b.len(),
            forall|k: int| 0 <= k < i ==> a@[k] == b@[k],
        decreases a.len() - i,
    {
        if a[i] != b[i] {
            return false;
        }
        i += 1;
    }
    assert(a@ =~= b@);
    true
}

} // verus!

//! Moving, borrowing and slicing text.
//!
//! Lengths are byte lengths of the UTF-8 encoding, as `String::len` reports
//! them, while the contracts speak of the characters of the text.

use vstd::prelude::*;
use vstd::string::*;
use vstd::utf8::*;

verus! {

/// The code of the space character, as a byte of UTF-8 text.
pub const SPACE: u8 = 0x20;

/// Number of bytes that `text` occupies once encoded as UTF-8.
pub open spec fn byte_len(text: Seq<char>) -> nat {
    encode_utf8(text).len()
}

/// `word` is the part of `text` in front of its first space, or all of `text`
/// where it holds no space.
pub open spec fn is_first_word(text: Seq<char>, word: Seq<char>) -> bool {
    &&& word.len() <= text.len()
    &&& word == text.subrange(0, word.len() as int)
    &&& forall|i: int| 0 <= i < word.len() ==> word[i] != ' '
    &&& word.len() < text.len() ==> text[word.len() as int] == ' '
}

/// Index of the first space of `text`, or its length where it holds none.
pub open spec fn first_space(text: Seq<char>) -> int
    decreases text.len(),
{
    if text.len() == 0 || text[0] == ' ' {
        0
    } else {
        1 + first_space(text.drop_first())
    }
}

/// The first word of a text is unique.
pub proof fn lemma_first_word_unique(text: Seq<char>, a: Seq<char>, b: Seq<char>)
    requires
        is_first_word(text, a),
        is_first_word(text, b),
    ensures
        a == b,
{
    if a.len() < b.len() {
        assert(b[a.len() as int] == text[a.len() as int]);
    } else if b.len() < a.len() {
        assert(a[b.len() as int] == text[b.len() as int]);
    }
}

/// The prefix that ends at `first_space` is the first word.
pub proof fn lemma_first_space_is_first_word(text: Seq<char>)
    ensures
        0 <= first_space(text) <= text.len(),
        is_first_word(text, text.subrange(0, first_space(text))),
    decreases text.len(),
{
    if text.len() == 0 || text[0] == ' ' {
    } else {
        let rest = text.drop_first();
        lemma_first_space_is_first_word(rest);
        let k = first_space(rest);
        let word = text.subrange(0, k + 1);
        assert forall|i: int| 0 <= i < word.len() implies word[i] != ' ' by {
            if i > 0 {
                assert(word[i] == rest.subrange(0, k)[i - 1]);
            }
        }
        if k + 1 < text.len() {
            assert(text[k + 1] == rest[k]);
        }
    }
}

/// No byte of the encoding of a scalar value other than the space is the space
/// byte.
proof fn lemma_scalar_has_no_space(s: u32)
    requires
        is_scalar(s),
        s != 0x20,
    ensures
        1 <= encode_scalar(s).len() <= 4,
        forall|j: int| 0 <= j < encode_scalar(s).len() ==> #[trigger] encode_scalar(s)[j] != SPACE,
{
    if has_width_1_encoding(s) {
        assert((s & 0x7F) as u8 != 0x20u8) by (bit_vector)
            requires
                s != 0x20u32,
                s <= 0x7Fu32,
        ;
    } else {
        assert(0xC0u8 | ((s >> 6) & 0x1F) as u8 != 0x20u8) by (bit_vector);
        assert(0xE0u8 | ((s >> 12) & 0x0F) as u8 != 0x20u8) by (bit_vector);
        assert(0xF0u8 | ((s >> 18) & 0x7) as u8 != 0x20u8) by (bit_vector);
        assert(0x80u8 | (s & 0x3F) as u8 != 0x20u8) by (bit_vector);
        assert(0x80u8 | ((s >> 6) & 0x3F) as u8 != 0x20u8) by (bit_vector);
        assert(0x80u8 | ((s >> 12) & 0x3F) as u8 != 0x20u8) by (bit_vector);
    }
}

/// Where `end` is the place of the first space byte in the encoding of `text`
/// (or the encoding's length, if it holds none), the bytes in front of `end`
/// encode the characters in front of the first space.
proof fn lemma_first_space_byte(text: Seq<char>, end: int)
    requires
        0 <= end <= encode_utf8(text).len(),
        forall|j: int| 0 <= j < end ==> encode_utf8(text)[j] != SPACE,
        end < encode_utf8(text).len() ==> encode_utf8(text)[end] == SPACE,
    ensures
        encode_utf8(text.subrange(0, first_space(text))) == encode_utf8(text).subrange(0, end),
    decreases text.len(),
{
    let bytes = encode_utf8(text);
    lemma_first_space_is_first_word(text);
    if text.len() == 0 {
        assert(text.subrange(0, 0) =~= text);
        assert(bytes.subrange(0, end) =~= bytes);
    } else if text[0] == ' ' {
        assert(encode_scalar(' ' as u32) =~= seq![SPACE]) by {
            assert((0x20u32 & 0x7F) as u8 == 0x20u8) by (bit_vector);
        }
        assert(bytes[0] == SPACE);
        assert(end == 0);
        assert(text.subrange(0, 0) =~= Seq::<char>::empty());
        assert(bytes.subrange(0, 0) =~= encode_utf8(Seq::<char>::empty()));
    } else {
        let head = encode_scalar(text[0] as u32);
        let rest = text.drop_first();
        let tail = encode_utf8(rest);
        let w = head.len() as int;
        char_is_scalar(text[0]);
        if text[0] as u32 == 0x20u32 {
            char_u32_cast(text[0], 0x20u32);
            char_u32_cast(' ', 0x20u32);
        }
        lemma_scalar_has_no_space(text[0] as u32);
        assert(bytes =~= head + tail);
        if end < w {
            assert(bytes[end] == head[end]);
        }
        assert forall|j: int| 0 <= j < end - w implies tail[j] != SPACE by {
            assert(tail[j] == bytes[j + w]);
        }
        if end - w < tail.len() {
            assert(tail[end - w] == bytes[end]);
        }
        lemma_first_space_byte(rest, end - w);
        lemma_first_space_is_first_word(rest);
        let k = first_space(rest);
        let word = text.subrange(0, k + 1);
        assert(word.drop_first() =~= rest.subrange(0, k));
        assert(word[0] == text[0]);
        assert(encode_utf8(word) =~= head + tail.subrange(0, end - w));
        assert(head + tail.subrange(0, end - w) =~= bytes.subrange(0, end));
    }
}

/// Length in bytes of a text that the caller gives away.
pub fn strlen_bad(var: String) -> (len: usize)
    ensures
        len == byte_len(var@),
{
    var.as_str().as_bytes().len()
}

/// Length in bytes of a text, handed back together with the text itself.
pub fn strlen_fix(var: String) -> (out: (String, usize))
    ensures
        out.0 == var,
        out.1 == byte_len(var@),
{
    let len = var.as_str().as_bytes().len();
    (var, len)
}

/// Length in bytes of a borrowed text.
pub fn strlen(var: &String) -> (len: usize)
    ensures
        len == byte_len(var@),
{
    var.as_str().as_bytes().len()
}

/// Appends `_string` to the text behind the reference.
pub fn str_change(var: &mut String)
    ensures
        final(var)@ == old(var)@ + "_string"@,
{
    var.append("_string");
}

/// The part of `s` in front of its first space; all of `s` where it holds no
/// space.
pub fn get_first_word(s: &String) -> (word: &str)
    ensures
        is_first_word(s@, word@),
{
    let text = s.as_str();
    let bytes = text.as_bytes();
    proof {
        encode_utf8_valid_utf8(s@);
    }
    let mut i: usize = 0;
    while i < bytes.len()
        invariant
            bytes@ == encode_utf8(s@),
            text@ == s@,
            valid_utf8(bytes@),
            0 <= i <= bytes@.len(),
            forall|j: int| 0 <= j < i ==> bytes@[j] != SPACE,
        decreases bytes@.len() - i,
    {
        if bytes[i] == SPACE {
            proof {
                is_char_boundary_iff_not_is_continuation_byte(bytes@, i as int);
                lemma_first_space_is_first_word(s@);
                lemma_first_space_byte(s@, i as int);
            }
            let (word, _) = text.split_at(i);
            proof {
                let prefix = s@.subrange(0, first_space(s@));
                assert(encode_utf8(word@) == encode_utf8(prefix));
                encode_utf8_decode_utf8(word@);
                encode_utf8_decode_utf8(prefix);
            }
            return word;
        }
        i += 1;
    }
    proof {
        lemma_first_space_is_first_word(s@);
        lemma_first_space_byte(s@, i as int);
        let prefix = s@.subrange(0, first_space(s@));
        assert(bytes@.subrange(0, i as int) =~= bytes@);
        encode_utf8_decode_utf8(text@);
        encode_utf8_decode_utf8(prefix);
    }
    text
}

} // verus!

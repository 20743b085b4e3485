//! Tolerance for a UTF-8 byte order mark in front of JSON text.
use vstd::prelude::*;
use vstd::string::StringSliceAdditionalSpecFns;

verus! {

/// The UTF-8 encoding of U+FEFF.
pub open spec fn utf8_bom() -> Seq<u8> {
    seq![0xefu8, 0xbbu8, 0xbfu8]
}

/// The bytes without one leading byte order mark, if they start with one.
pub open spec fn without_bom(bytes: Seq<u8>) -> Seq<u8> {
    if bytes.len() >= 3 && bytes.take(3) == utf8_bom() {
        bytes.skip(3)
    } else {
        bytes
    }
}

/// The text without one leading U+FEFF, if it starts with one.
pub open spec fn without_bom_char(text: Seq<char>) -> Seq<char> {
    if text.len() > 0 && text[0] == '\u{feff}' {
        text.drop_first()
    } else {
        text
    }
}

/// Removes a single UTF-8 byte order mark from the front of `bytes`.
pub fn strip_utf8_bom(bytes: &[u8]) -> (r: &[u8])
    ensures
        r@ == without_bom(bytes@),
{
    if bytes.len() >= 3 && bytes[0] == 0xef && bytes[1] == 0xbb && bytes[2] == 0xbf {
        assert(bytes@.take(3) =~= utf8_bom());
        let r = vstd::slice::slice_subrange(bytes, 3, bytes.len());
        assert(r@ =~= bytes@.skip(3));
        r
    } else {
        proof {
            if bytes@.len() >= 3 && bytes@.take(3) == utf8_bom() {
                assert(bytes@[0] == bytes@.take(3)[0]);
                assert(bytes@[1] == bytes@.take(3)[1]);
                assert(bytes@[2] == bytes@.take(3)[2]);
            }
        }
        bytes
    }
}

proof fn lemma_bom_prefix(text: Seq<char>)
    requires
        text.len() > 0,
        text[0] == '\u{feff}',
    ensures
        vstd::utf8::encode_utf8(text) =~= seq![0xefu8, 0xbbu8, 0xbfu8] + vstd::utf8::encode_utf8(
            text.drop_first(),
        ),
{
    let s: u32 = 0xfeffu32;
    assert(text[0] as u32 == s);
    assert(vstd::utf8::has_width_3_encoding(s));
    assert(vstd::utf8::leading_byte_width_3(s) == 0xefu8) by (bit_vector)
        requires
            s == 0xfeffu32,
    ;
    assert(vstd::utf8::second_last_continuation_byte(s) == 0xbbu8) by (bit_vector)
        requires
            s == 0xfeffu32,
    ;
    assert(vstd::utf8::last_continuation_byte(s) == 0xbfu8) by (bit_vector)
        requires
            s == 0xfeffu32,
    ;
}

/// Removes a single U+FEFF from the front of `text`.
pub fn strip_utf8_bom_str(text: &str) -> (r: &str)
    ensures
        r@ == without_bom_char(text@),
{
    let n = text.unicode_len();
    if n > 0 && text.get_char(0) == '\u{feff}' {
        let ghost bytes = vstd::utf8::encode_utf8(text@);
        proof {
            lemma_bom_prefix(text@);
            vstd::utf8::encode_utf8_valid_utf8(text@);
            vstd::utf8::encode_utf8_first_scalar(text@);
            assert(vstd::utf8::encode_scalar(text@[0] as u32) =~= seq![0xefu8, 0xbbu8, 0xbfu8]) by {
                lemma_bom_prefix(text@);
                assert(vstd::utf8::encode_scalar(text@[0] as u32) + vstd::utf8::encode_utf8(
                    text@.drop_first(),
                ) == bytes);
            }
            assert(vstd::utf8::pop_first_scalar(bytes) =~= bytes.subrange(3, bytes.len() as int));
            assert(vstd::utf8::is_char_boundary(vstd::utf8::pop_first_scalar(bytes), 0));
            assert(vstd::utf8::is_char_boundary(bytes, 3));
        }
        let (_, rest) = text.split_at(3);
        proof {
            assert(rest.spec_bytes() =~= vstd::utf8::encode_utf8(text@.drop_first()));
            vstd::utf8::encode_utf8_decode_utf8(text@.drop_first());
            vstd::utf8::encode_utf8_decode_utf8(rest@);
        }
        rest
    } else {
        text
    }
}

} // verus!

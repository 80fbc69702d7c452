use vstd::prelude::*;
use vstd::string::StringSliceAdditionalSpecFns;
use vstd::utf8::*;

verus! {

/// The width, in bytes, that a UTF-8 sequence announces by its first byte.
/// Anything that is neither ASCII nor a two- or three-byte leader counts as four.
pub open spec fn utf8_width(first: u8) -> nat {
    if first < 0x80 {
        1
    } else if 0xc0 <= first <= 0xdf {
        2
    } else if 0xe0 <= first <= 0xef {
        3
    } else {
        4
    }
}

/// The byte length of the UTF-8 sequence starting with `first`.
pub fn utf8_len(first: u8) -> (n: usize)
    ensures
        n == utf8_width(first),
{
    if first < 0x80 {
        1
    } else if first >> 5 == 0b110 {
        assert(first >> 5 == 0b110 <==> 0xc0 <= first <= 0xdf) by (bit_vector);
        2
    } else if first >> 4 == 0b1110 {
        assert(first >> 5 != 0b110 ==> (first >> 4 == 0b1110 <==> 0xe0 <= first <= 0xef)) by (bit_vector);
        3
    } else {
        assert(first >= 0x80 && first >> 5 != 0b110 && first >> 4 != 0b1110 ==> !(0xc0 <= first <= 0xdf) && !(0xe0 <= first <= 0xef)) by (bit_vector);
        4
    }
}

/// Whether byte offset `k` of `b` starts a character or ends the sequence.
pub open spec fn at_boundary(b: Seq<u8>, k: int) -> bool {
    k == b.len() || (0 <= k < b.len() && !is_continuation_byte(b[k]))
}

/// In valid UTF-8, the width that a character's first byte announces takes
/// the scan to the start of the next character, or to the end.
pub proof fn lemma_step(b: Seq<u8>, i: int)
    requires
        valid_utf8(b),
        0 <= i < b.len(),
        !is_continuation_byte(b[i]),
    ensures
        i + utf8_width(b[i]) <= b.len(),
        at_boundary(b, i + utf8_width(b[i])),
{
    is_char_boundary_iff_not_is_continuation_byte(b, i);
    valid_utf8_split(b, i);
    let s = b.subrange(i, b.len() as int);
    assert(valid_first_scalar(s) && valid_utf8(pop_first_scalar(s)));
    let w = utf8_width(b[i]) as int;
    assert(length_of_first_scalar(s) == w);
    let rest = pop_first_scalar(s);
    if rest.len() > 0 {
        assert(valid_first_scalar(rest));
        assert(rest[0] == b[i + w]);
    }
}

/// Where `at_boundary` holds, the offset is a character boundary in vstd's sense.
pub proof fn lemma_at_boundary(b: Seq<u8>, k: int)
    requires
        valid_utf8(b),
        at_boundary(b, k),
    ensures
        is_char_boundary(b, k),
{
    if k == b.len() {
        is_char_boundary_start_end_of_seq(b);
    } else {
        is_char_boundary_iff_not_is_continuation_byte(b, k);
    }
}

/// The characters of `text` between byte offsets `lo` and `hi`.
pub fn byte_slice(text: &str, lo: usize, hi: usize) -> (piece: &str)
    requires
        lo <= hi <= text.spec_bytes().len(),
        at_boundary(text.spec_bytes(), lo as int),
        at_boundary(text.spec_bytes(), hi as int),
    ensures
        piece.spec_bytes() == text.spec_bytes().subrange(lo as int, hi as int),
        piece@ == decode_utf8(text.spec_bytes().subrange(lo as int, hi as int)),
{
    let ghost b = text.spec_bytes();
    proof {
        encode_utf8_valid_utf8(text@);
        lemma_at_boundary(b, lo as int);
    }
    let (_, rest) = text.split_at(lo);
    proof {
        let r = rest.spec_bytes();
        encode_utf8_valid_utf8(rest@);
        assert(r =~= b.subrange(lo as int, b.len() as int));
        if hi < b.len() {
            assert(r[hi - lo] == b[hi as int]);
        }
        assert(at_boundary(r, hi - lo));
        lemma_at_boundary(r, hi - lo);
    }
    let (piece, _) = rest.split_at(hi - lo);
    proof {
        assert(piece.spec_bytes() =~= b.subrange(lo as int, hi as int));
        encode_utf8_decode_utf8(piece@);
    }
    piece
}

/// The facts the scanners need of one character's encoding: its first byte
/// announces its width, it decodes back to the character, and its first byte
/// is an ASCII byte exactly when the character is that ASCII character.
pub proof fn lemma_char_encoding(c: char)
    ensures
        ({
            let e = encode_scalar(c as u32);
            &&& 1 <= e.len() <= 4
            &&& utf8_width(e[0]) == e.len()
            &&& decode_utf8(e) == seq![c]
            &&& encode_utf8(seq![c]) == e
            &&& (c as u32) < 0x80 ==> e[0] == c as u32
            &&& (c as u32) >= 0x80 ==> e[0] >= 0xc0
        }),
{
    let v = c as u32;
    char_is_scalar(c);
    let e = encode_scalar(v);
    assert(encode_utf8(seq![c]) =~= e) by {
        let one = seq![c];
        assert(one[0] == c);
        assert(one.drop_first() =~= Seq::<char>::empty());
        assert(encode_utf8(one.drop_first()) =~= Seq::<u8>::empty());
        assert(encode_utf8(one) == encode_scalar(one[0] as u32) + encode_utf8(one.drop_first()));
        assert(e + Seq::<u8>::empty() =~= e);
    }
    encode_utf8_decode_utf8(seq![c]);
    if has_width_1_encoding(v) {
        assert((v & 0x7F) as u8 == v && v < 0x80) by (bit_vector)
            requires
                v <= 0x7F,
        ;
    } else if has_width_2_encoding(v) {
        assert(0xC0 <= (0xC0 | ((v >> 6) & 0x1F) as u8) <= 0xDF) by (bit_vector);
    } else if has_width_3_encoding(v) {
        assert(0xE0 <= (0xE0 | ((v >> 12) & 0x0F) as u8) <= 0xEF) by (bit_vector);
    } else {
        assert(0xF0 <= (0xF0 | ((v >> 18) & 0x7) as u8) <= 0xF7) by (bit_vector);
    }
}

/// The encoding of a concatenation is the concatenation of the encodings.
pub proof fn lemma_encode_concat(a: Seq<char>, b: Seq<char>)
    ensures
        encode_utf8(a + b) == encode_utf8(a) + encode_utf8(b),
    decreases a.len(),
{
    if a.len() == 0 {
        assert(a + b =~= b);
        assert(encode_utf8(a) + encode_utf8(b) =~= encode_utf8(b));
    } else {
        assert((a + b).drop_first() =~= a.drop_first() + b);
        assert((a + b)[0] == a[0]);
        lemma_encode_concat(a.drop_first(), b);
        assert(encode_utf8(a + b) =~= encode_utf8(a) + encode_utf8(b));
    }
}

/// `std::str::from_utf8`: `bytes` read as text, when they are valid UTF-8.
#[verifier::external_body]
pub(crate) fn utf8_text(bytes: &[u8]) -> (r: Option<&str>)
    ensures
        r is Some <==> valid_utf8(bytes@),
        r matches Some(t) ==> t.spec_bytes() == bytes@,
{
    std::str::from_utf8(bytes).ok()
}

/// The text whose UTF-8 bytes are `bytes`, when they are valid UTF-8.
pub fn decode_text(bytes: &[u8]) -> (r: Option<String>)
    ensures
        r is Some <==> valid_utf8(bytes@),
        r matches Some(t) ==> t@ == decode_utf8(bytes@),
{
    match utf8_text(bytes) {
        Some(t) => {
            proof {
                encode_utf8_decode_utf8(t@);
            }
            Some(t.to_owned())
        },
        None => None,
    }
}

} // verus!

use vstd::prelude::*;
use vstd::string::StringSliceAdditionalSpecFns;
use vstd::utf8::*;

use crate::chars::{push_char, push_str};
use crate::text::{trim, trimmed};
use crate::bytes::{
    at_boundary, byte_slice, lemma_char_encoding, lemma_step, utf8_len, utf8_width,
};

verus! {

/// `i + k`, but no further than the end of `b`.
pub open spec fn clip(b: Seq<u8>, i: int, k: int) -> int {
    if i + k > b.len() {
        b.len() as int
    } else {
        i + k
    }
}

/// Whether an escape, `\"` or `\\`, starts at byte offset `i` of `b`.
pub open spec fn escape_at(b: Seq<u8>, i: int) -> bool {
    0 <= i && i + 1 < b.len() && b[i] == 0x5c && (b[i + 1] == 0x22 || b[i + 1] == 0x5c)
}

/// The offset of the `}` that closes a marker body scanned from offset `i`
/// (`quoted` when the scan is inside a `"…"` span): a `"` opens or closes a
/// span; inside a span the escapes `\"` and `\\` are passed over whole and a
/// `}` does not close; outside one the first `}` closes. Any other character is
/// passed over by its UTF-8 width. `None` when the body runs off the end.
pub open spec fn marker_close(b: Seq<u8>, i: int, quoted: bool) -> Option<int>
    decreases b.len() - i,
{
    if i < 0 || i >= b.len() {
        None
    } else if quoted && escape_at(b, i) {
        marker_close(b, i + 2, true)
    } else if b[i] == 0x22 {
        marker_close(b, i + 1, !quoted)
    } else if !quoted && b[i] == 0x7d {
        Some(i)
    } else {
        marker_close(b, clip(b, i, utf8_width(b[i]) as int), quoted)
    }
}

/// A closing offset lies at or after the scan's start and holds a `}`.
pub proof fn lemma_marker_close(b: Seq<u8>, i: int, quoted: bool)
    ensures
        marker_close(b, i, quoted) matches Some(c) ==> i <= c < b.len() && b[c] == 0x7d,
    decreases b.len() - i,
{
    if 0 <= i < b.len() {
        if quoted && escape_at(b, i) {
            lemma_marker_close(b, i + 2, true);
        } else if b[i] == 0x22 {
            lemma_marker_close(b, i + 1, !quoted);
        } else if !quoted && b[i] == 0x7d {
        } else {
            lemma_marker_close(b, clip(b, i, utf8_width(b[i]) as int), quoted);
        }
    }
}

/// The index of the `}` closing the marker whose `{` is at byte offset `brace`,
/// skipping any `}` inside a `"…"` span (where `\"` and `\\` are escapes).
/// `None` if unterminated.
pub fn find_marker_end(text: &str, brace: usize) -> (r: Option<usize>)
    ensures
        marker_close(text.spec_bytes(), brace + 1, false) == (match r {
            Some(c) => Some(c as int),
            None => None::<int>,
        }),
        r matches Some(c) ==> brace < c < text.spec_bytes().len() && text.spec_bytes()[c as int]
            == 0x7d,
{
    let b = text.as_bytes();
    let ghost bs = text.spec_bytes();
    proof {
        lemma_marker_close(bs, brace + 1, false);
    }
    if brace >= b.len() {
        return None;
    }
    let mut i = brace + 1;
    let mut in_quote = false;
    while i < b.len()
        invariant
            b@ == bs,
            bs == text.spec_bytes(),
            brace < i <= b@.len(),
            marker_close(bs, i as int, in_quote) == marker_close(bs, brace + 1, false),
        decreases b@.len() - i,
    {
        let c = b[i];
        if in_quote && c == 0x5c && b.len() - i > 1 && (b[i + 1] == 0x22 || b[i + 1] == 0x5c) {
            i = i + 2;
        } else if c == 0x22 {
            in_quote = !in_quote;
            i = i + 1;
        } else if c == 0x7d && !in_quote {
            assert(marker_close(bs, i as int, in_quote) == Some(i as int));
            return Some(i);
        } else {
            let w = utf8_len(c);
            i = if b.len() - i <= w {
                b.len()
            } else {
                i + w
            };
        }
    }
    None
}

/// One piece of a scanned shape, as text: literal text, or a marker body.
pub enum Piece {
    Lit(Seq<char>),
    Marker(Seq<char>),
}

/// One piece of a scanned shape: literal text, or a marker body to resolve.
#[derive(Debug)]
pub enum Segment {
    Lit(String),
    Marker(String),
}

impl View for Segment {
    type V = Piece;

    open spec fn view(&self) -> Piece {
        match self {
            Segment::Lit(t) => Piece::Lit(t@),
            Segment::Marker(m) => Piece::Marker(m@),
        }
    }
}

/// The views of `segments`, in order.
pub open spec fn pieces_of(segments: Seq<Segment>) -> Seq<Piece> {
    segments.map_values(|s: Segment| s@)
}

/// A pending literal, emitted only when it holds something.
pub open spec fn flush(lit: Seq<char>) -> Seq<Piece> {
    if lit.len() == 0 {
        Seq::empty()
    } else {
        seq![Piece::Lit(lit)]
    }
}

/// Whether `$a{` starts at byte offset `i` of `b`.
pub open spec fn opens_marker(b: Seq<u8>, i: int) -> bool {
    0 <= i && i + 2 < b.len() && b[i] == 0x24 && b[i + 1] == 0x61 && b[i + 2] == 0x7b
}

/// The pieces of `b` from byte offset `i` on, with `lit` the literal text
/// gathered so far: `$$` is a literal `$`; `$a{ … }` is a marker holding its
/// trimmed body; anything else, an unterminated `$a{` included, is literal.
pub open spec fn scan_from(b: Seq<u8>, i: int, lit: Seq<char>) -> Seq<Piece>
    decreases b.len() - i,
{
    if i < 0 || i >= b.len() {
        flush(lit)
    } else if b[i] == 0x24 && i + 1 < b.len() && b[i + 1] == 0x24 {
        scan_from(b, i + 2, lit.push('$'))
    } else if opens_marker(b, i) && marker_close(b, i + 3, false) is Some {
        let close = marker_close(b, i + 3, false)->0;
        proof {
            lemma_marker_close(b, i + 3, false);
        }
        flush(lit) + seq![Piece::Marker(trim(decode_utf8(b.subrange(i + 3, close))))]
            + scan_from(b, close + 1, Seq::empty())
    } else {
        let j = clip(b, i, utf8_width(b[i]) as int);
        scan_from(b, j, lit + decode_utf8(b.subrange(i, j)))
    }
}

/// The pieces of the shape whose UTF-8 bytes are `b`, in document order.
pub open spec fn scanned(b: Seq<u8>) -> Seq<Piece> {
    scan_from(b, 0, Seq::empty())
}

/// Split `text` into ordered literal/marker segments. `$$` collapses to a
/// literal `$` (so `$$a{…}` becomes the literal text `$a{…}`); `$a{ … }`
/// becomes a marker holding its inner `<iri>[?args]`, trimmed; an unterminated
/// `$a{` stays literal.
pub fn scan(text: &str) -> (segments: Vec<Segment>)
    ensures
        pieces_of(segments@) == scanned(text.spec_bytes()),
{
    let b = text.as_bytes();
    let ghost bs = text.spec_bytes();
    proof {
        encode_utf8_valid_utf8(text@);
    }
    let mut segments: Vec<Segment> = Vec::new();
    let mut lit = String::new();
    let mut i: usize = 0;
    while i < b.len()
        invariant
            b@ == bs,
            bs == text.spec_bytes(),
            valid_utf8(bs),
            i <= bs.len(),
            at_boundary(bs, i as int),
            pieces_of(segments@) + scan_from(bs, i as int, lit@) == scanned(bs),
        decreases bs.len() - i,
    {
        let ghost before = pieces_of(segments@);
        let ghost old_lit = lit@;
        if b[i] == 0x24 {
            if i + 1 < b.len() && b[i + 1] == 0x24 {
                proof {
                    lemma_step(bs, i as int);
                    lemma_step(bs, i + 1);
                }
                push_char(&mut lit, '$');
                i = i + 2;
                continue ;
            }
            if b.len() - i > 2 && b[i + 1] == 0x61 && b[i + 2] == 0x7b {
                let brace = i + 2;
                match find_marker_end(text, brace) {
                    Some(close) => {
                        proof {
                            lemma_marker_close(bs, i + 3, false);
                            lemma_step(bs, i as int);
                            lemma_step(bs, i + 1);
                            lemma_step(bs, i + 2);
                            lemma_step(bs, close as int);
                        }
                        assert(scan_from(bs, i as int, old_lit) == flush(old_lit) + seq![
                            Piece::Marker(trim(decode_utf8(bs.subrange(i + 3, close as int)))),
                        ] + scan_from(bs, close + 1, Seq::empty()));
                        if !lit.as_str().is_empty() {
                            let done = lit;
                            lit = String::new();
                            segments.push(Segment::Lit(done));
                        }
                        assert(lit@ =~= Seq::<char>::empty());
                        let body = trimmed(byte_slice(text, brace + 1, close));
                        segments.push(Segment::Marker(body));
                        assert(pieces_of(segments@) =~= before + flush(old_lit) + seq![
                            Piece::Marker(trim(decode_utf8(bs.subrange(i + 3, close as int)))),
                        ]);
                        i = close + 1;
                        continue ;
                    },
                    None => {},
                }
            }
        }
        let w = utf8_len(b[i]);
        proof {
            lemma_step(bs, i as int);
        }
        let piece = byte_slice(text, i, i + w);
        push_str(&mut lit, piece);
        i = i + w;
    }
    if !lit.as_str().is_empty() {
        segments.push(Segment::Lit(lit));
    }
    segments
}

/// Scanning across the encoding of `s`, which holds no `$`, only adds `s` to
/// the pending literal.
pub proof fn lemma_scan_plain(b: Seq<u8>, i: int, s: Seq<char>, lit: Seq<char>)
    requires
        0 <= i,
        i + encode_utf8(s).len() <= b.len(),
        b.subrange(i, i + encode_utf8(s).len()) == encode_utf8(s),
        !s.contains('$'),
    ensures
        scan_from(b, i, lit) == scan_from(b, i + encode_utf8(s).len(), lit + s),
    decreases s.len(),
{
    if s.len() == 0 {
        assert(lit + s =~= lit);
    } else {
        let c = s[0];
        let e = encode_scalar(c as u32);
        lemma_char_encoding(c);
        let rest = s.drop_first();
        let k = e.len() as int;
        assert(encode_utf8(s) == e + encode_utf8(rest));
        assert(c != '$');
        assert(('$' as u32) == 36);
        lemma_region_split(b, i, e, encode_utf8(rest));
        assert(utf8_width(b[i]) == k);
        assert(clip(b, i, utf8_width(b[i]) as int) == i + k);
        assert(decode_utf8(b.subrange(i, i + k)) == seq![c]);
        if (c as u32) == ('$' as u32) {
            vstd::utf8::char_u32_cast(c, c as u32);
            vstd::utf8::char_u32_cast('$', c as u32);
        }
        assert(b[i] != 0x24);
        assert(!opens_marker(b, i));
        assert(scan_from(b, i, lit) == scan_from(b, i + k, lit + seq![c]));
        assert(encode_utf8(s).len() == k + encode_utf8(rest).len());
        assert(!rest.contains('$')) by {
            if rest.contains('$') {
                let j = choose|j: int| 0 <= j < rest.len() && rest[j] == '$';
                assert(s[j + 1] == '$');
            }
        }
        lemma_scan_plain(b, i + k, rest, lit + seq![c]);
        assert(lit + seq![c] + rest =~= lit + s);
    }
}

/// Scanning an unquoted marker body across the encoding of `s`, which holds
/// neither `}` nor `"`, finds no close inside it.
pub proof fn lemma_close_plain(b: Seq<u8>, i: int, s: Seq<char>)
    requires
        0 <= i,
        i + encode_utf8(s).len() <= b.len(),
        b.subrange(i, i + encode_utf8(s).len()) == encode_utf8(s),
        !s.contains('}'),
        !s.contains('"'),
    ensures
        marker_close(b, i, false) == marker_close(b, i + encode_utf8(s).len(), false),
    decreases s.len(),
{
    if s.len() > 0 {
        let c = s[0];
        let e = encode_scalar(c as u32);
        lemma_char_encoding(c);
        let rest = s.drop_first();
        let k = e.len() as int;
        assert(encode_utf8(s) == e + encode_utf8(rest));
        assert(c != '}' && c != '"');
        assert(('}' as u32) == 0x7d && ('"' as u32) == 0x22);
        lemma_region_split(b, i, e, encode_utf8(rest));
        assert(utf8_width(b[i]) == k);
        assert(clip(b, i, utf8_width(b[i]) as int) == i + k);
        if (c as u32) == ('}' as u32) {
            vstd::utf8::char_u32_cast(c, c as u32);
            vstd::utf8::char_u32_cast('}', c as u32);
        }
        if (c as u32) == ('"' as u32) {
            vstd::utf8::char_u32_cast(c, c as u32);
            vstd::utf8::char_u32_cast('"', c as u32);
        }
        assert(b[i] != 0x7d && b[i] != 0x22);
        assert(marker_close(b, i, false) == marker_close(b, i + k, false));
        assert(encode_utf8(s).len() == k + encode_utf8(rest).len());
        assert(!rest.contains('}') && !rest.contains('"')) by {
            if rest.contains('}') {
                let j = choose|j: int| 0 <= j < rest.len() && rest[j] == '}';
                assert(s[j + 1] == '}');
            }
            if rest.contains('"') {
                let j = choose|j: int| 0 <= j < rest.len() && rest[j] == '"';
                assert(s[j + 1] == '"');
            }
        }
        lemma_close_plain(b, i + k, rest);
    }
}

/// A region of `b` holding `x + y` holds `x`, then `y`.
pub proof fn lemma_region_split(b: Seq<u8>, i: int, x: Seq<u8>, y: Seq<u8>)
    requires
        0 <= i,
        i + x.len() + y.len() <= b.len(),
        b.subrange(i, i + (x + y).len()) == x + y,
    ensures
        b.subrange(i, i + x.len()) == x,
        b.subrange(i + x.len(), i + x.len() + y.len()) == y,
        x.len() > 0 ==> b[i] == x[0],
{
    let whole = b.subrange(i, i + (x + y).len());
    assert forall|j: int| 0 <= j < x.len() implies b.subrange(i, i + x.len())[j] == x[j] by {
        assert(whole[j] == b[i + j]);
        assert((x + y)[j] == x[j]);
    }
    assert forall|j: int| 0 <= j < y.len() implies b.subrange(
        i + x.len(),
        i + x.len() + y.len(),
    )[j] == y[j] by {
        assert(whole[x.len() + j] == b[i + x.len() + j]);
        assert((x + y)[x.len() + j] == y[j]);
    }
    assert(b.subrange(i, i + x.len()) =~= x);
    assert(b.subrange(i + x.len(), i + x.len() + y.len()) =~= y);
    if x.len() > 0 {
        assert(whole[0] == b[i]);
        assert((x + y)[0] == x[0]);
    }
}

/// The encoding of an ASCII character is that one byte.
pub proof fn lemma_ascii_encoding(c: char)
    requires
        (c as u32) < 0x80,
    ensures
        encode_utf8(seq![c]) == seq![c as u8],
{
    lemma_char_encoding(c);
    assert(encode_scalar(c as u32) =~= seq![c as u8]);
}

} // verus!

use vstd::prelude::*;
use vstd::string::StringSliceAdditionalSpecFns;
use vstd::utf8::*;

use crate::catalog::{function_id, Function};
use crate::chars::{decimal, push_decimal, push_str};
use crate::error::{outcome, FnError, Failure};
use crate::iri::{iri_argument, parse_iri};
use crate::bytes::{lemma_char_encoding, lemma_encode_concat, utf8_width};
use crate::markers::{
    flush, lemma_ascii_encoding, lemma_close_plain, lemma_scan_plain, marker_close, opens_marker,
    pieces_of, scan, scan_from, scanned, Piece, Segment,
};
use crate::text::trim;
use crate::request::{marker_request, parse_marker, MarkerRequest};
use crate::bytes::decode_text;

verus! {

/// `compose`: recursive resource transclusion.
///
/// Sources the resource named by the `src` argument and expands every
/// `$a{<iri>}` marker in its (UTF-8 text) representation by resolving the
/// embedded resource and splicing the result in — recursively, so a transcluded
/// shape may itself contain markers. A marker may carry inline arguments
/// (`$a{urn:iki:fn:toUpper?in="resource oriented computing"}`); a literal marker
/// is written `$$a{…}` (a `$$` is a literal `$`).
///
/// The work is split in steps: [`compose_source`] checks `src`,
/// [`shape_text`] reads the sourced shape, [`plan_expansion`] scans one level
/// and names the requests its markers make, [`settle_marker`] decides what a
/// resolved marker contributes, and [`assemble`] splices the level back
/// together. Sourcing and resolving are the host's.
pub struct Compose;

/// `compose`: recursive resource transclusion. See [`Compose`].
pub fn compose() -> Compose {
    Compose
}

impl Compose {
    /// The endpoint's name, which is its id.
    pub fn name(&self) -> (n: &'static str)
        ensures
            n == function_id(Function::Compose),
    {
        "compose"
    }
}

/// Maximum `$a{}` expansion depth — a backstop against a shape that transcludes
/// itself, directly or through a cycle.
pub const COMPOSE_MAX_DEPTH: usize = 32;

/// The IRI `compose` sources: its `src` argument, which must be an IRI.
pub fn compose_source(src: &str) -> (r: Result<String, FnError>)
    ensures
        outcome(r) == iri_argument(src@, "src"@),
{
    parse_iri(src, "src")
}

/// The message for a shape that is not UTF-8 text.
pub open spec fn shape_not_text(iri: Seq<char>) -> Seq<char> {
    "compose: `"@ + iri + "` is not UTF-8 text"@
}

/// What the shape sourced from `iri` reads as: its bytes as text, or an
/// `Endpoint` failure when they are not UTF-8.
pub open spec fn shape_reading(bytes: Seq<u8>, iri: Seq<char>) -> Result<Seq<char>, Failure> {
    if valid_utf8(bytes) {
        Ok(decode_utf8(bytes))
    } else {
        Err(Failure::Endpoint(shape_not_text(iri)))
    }
}

/// The text of the shape sourced from `iri`, whose bytes are `bytes`.
pub fn shape_text(bytes: &[u8], iri: &str) -> (r: Result<String, FnError>)
    ensures
        outcome(r) == shape_reading(bytes@, iri@),
{
    match decode_text(bytes) {
        Some(t) => Ok(t),
        None => {
            let mut msg = String::new();
            push_str(&mut msg, "compose: `");
            push_str(&mut msg, iri);
            push_str(&mut msg, "` is not UTF-8 text");
            Err(FnError::Endpoint(msg))
        },
    }
}

/// The marker bodies among `pieces`, in document order.
pub open spec fn marker_bodies(pieces: Seq<Piece>) -> Seq<Seq<char>>
    decreases pieces.len(),
{
    if pieces.len() == 0 {
        Seq::empty()
    } else {
        let rest = marker_bodies(pieces.drop_last());
        match pieces.last() {
            Piece::Marker(m) => rest.push(m),
            Piece::Lit(_) => rest,
        }
    }
}

/// The requests that `bodies` make, in order; the first body that is not a
/// well-formed marker is the failure.
pub open spec fn marker_requests(bodies: Seq<Seq<char>>) -> Result<
    Seq<(Seq<char>, Seq<(Seq<char>, Seq<char>)>)>,
    Failure,
>
    decreases bodies.len(),
{
    if bodies.len() == 0 {
        Ok(Seq::empty())
    } else {
        match marker_requests(bodies.drop_last()) {
            Err(e) => Err(e),
            Ok(rs) => match marker_request(bodies.last()) {
                Err(e) => Err(e),
                Ok(r) => Ok(rs.push(r)),
            },
        }
    }
}

/// The message for an expansion nested past [`COMPOSE_MAX_DEPTH`].
pub open spec fn too_deep() -> Seq<char> {
    "compose: recursion limit (32) exceeded — cyclic transclusion?"@
}

/// One level of expansion, ready to resolve: the scanned segments and, in
/// document order, the request each marker makes.
#[derive(Debug)]
pub struct Expansion {
    pub segments: Vec<Segment>,
    pub requests: Vec<MarkerRequest>,
}

/// The views of a list of requests.
pub open spec fn requests_view(rs: Seq<MarkerRequest>) -> Seq<(Seq<char>, Seq<(Seq<char>, Seq<char>)>)> {
    rs.map_values(|r: MarkerRequest| r@)
}

/// Scan `text`, met at nesting `depth`, into its segments and the requests its
/// markers make. Past [`COMPOSE_MAX_DEPTH`] nothing is scanned; a marker that is
/// not well-formed fails the whole level.
pub fn plan_expansion(text: &str, depth: usize) -> (r: Result<Expansion, FnError>)
    ensures
        depth >= COMPOSE_MAX_DEPTH ==> (r matches Err(e) && e@ == Failure::Endpoint(too_deep())),
        depth < COMPOSE_MAX_DEPTH ==> match r {
            Ok(x) => {
                &&& pieces_of(x.segments@) == scanned(text.spec_bytes())
                &&& marker_requests(marker_bodies(scanned(text.spec_bytes()))) == Ok::<
                    _,
                    Failure,
                >(requests_view(x.requests@))
            },
            Err(e) => marker_requests(marker_bodies(scanned(text.spec_bytes()))) == Err::<
                Seq<(Seq<char>, Seq<(Seq<char>, Seq<char>)>)>,
                _,
            >(e@),
        },
{
    if depth >= COMPOSE_MAX_DEPTH {
        let mut msg = String::new();
        push_str(&mut msg, "compose: recursion limit (32) exceeded — cyclic transclusion?");
        return Err(FnError::Endpoint(msg));
    }
    let segments = scan(text);
    let ghost pieces = pieces_of(segments@);
    let mut requests: Vec<MarkerRequest> = Vec::new();
    let mut k: usize = 0;
    assert(pieces.take(0) =~= Seq::<Piece>::empty());
    assert(requests_view(requests@) =~= Seq::<(Seq<char>, Seq<(Seq<char>, Seq<char>)>)>::empty());
    while k < segments.len()
        invariant
            k <= segments@.len(),
            depth < COMPOSE_MAX_DEPTH,
            pieces == pieces_of(segments@),
            pieces == scanned(text.spec_bytes()),
            marker_requests(marker_bodies(pieces.take(k as int))) == Ok::<_, Failure>(
                requests_view(requests@),
            ),
        decreases segments@.len() - k,
    {
        assert(pieces.take(k + 1).drop_last() =~= pieces.take(k as int));
        assert(pieces.take(k + 1).last() == segments@[k as int]@);
        let ghost bodies = marker_bodies(pieces.take(k + 1));
        match &segments[k] {
            Segment::Marker(inner) => {
                assert(bodies.drop_last() =~= marker_bodies(pieces.take(k as int)));
                assert(bodies.last() == inner@);
                match parse_marker(inner.as_str()) {
                    Ok(req) => {
                        let ghost before = requests_view(requests@);
                        requests.push(req);
                        assert(requests_view(requests@) =~= before.push(req@));
                    },
                    Err(e) => {
                        assert(marker_bodies(pieces.take(k + 1)) == marker_bodies(
                            pieces.take(k as int),
                        ).push(inner@));
                        proof {
                            lemma_requests_stop(pieces, k + 1);
                        }
                        return Err(e);
                    },
                }
            },
            Segment::Lit(_) => {
                assert(bodies == marker_bodies(pieces.take(k as int)));
            },
        }
        k = k + 1;
    }
    assert(pieces.take(segments@.len() as int) =~= pieces);
    Ok(Expansion { segments, requests })
}

/// Once the markers of a prefix fail, all the markers fail the same way.
proof fn lemma_requests_stop(pieces: Seq<Piece>, n: int)
    requires
        0 <= n <= pieces.len(),
        marker_requests(marker_bodies(pieces.take(n))) is Err,
    ensures
        marker_requests(marker_bodies(pieces)) == marker_requests(marker_bodies(pieces.take(n))),
    decreases pieces.len() - n,
{
    if n < pieces.len() {
        assert(pieces.take(n + 1).drop_last() =~= pieces.take(n));
        let bodies = marker_bodies(pieces.take(n + 1));
        match pieces.take(n + 1).last() {
            Piece::Marker(m) => {
                assert(bodies.drop_last() =~= marker_bodies(pieces.take(n)));
            },
            Piece::Lit(_) => {},
        }
        lemma_requests_stop(pieces, n + 1);
    } else {
        assert(pieces.take(n) =~= pieces);
    }
}

/// What a resolved marker contributes to its level.
#[derive(Debug)]
pub enum Settled {
    /// Text to expand in turn, one level deeper, and splice in.
    Expand(String),
    /// Text to splice in as it stands.
    Inline(String),
}

/// The note spliced in for a marker whose resource is not text.
pub open spec fn non_text_note(inner: Seq<char>, len: nat) -> Seq<char> {
    "<!-- compose: `"@ + inner + "` is non-text ("@ + decimal(len) + " bytes), not inlined -->"@
}

/// What the marker `inner`, resolved to `bytes`, contributes: UTF-8 text is
/// expanded in turn; anything else is not inlined, and a note says so.
pub fn settle_marker(inner: &str, bytes: &[u8]) -> (s: Settled)
    ensures
        valid_utf8(bytes@) ==> (s matches Settled::Expand(t) && t@ == decode_utf8(bytes@)),
        !valid_utf8(bytes@) ==> (s matches Settled::Inline(t) && t@ == non_text_note(
            inner@,
            bytes@.len(),
        )),
{
    match decode_text(bytes) {
        Some(t) => Settled::Expand(t),
        None => {
            let mut note = String::new();
            push_str(&mut note, "<!-- compose: `");
            push_str(&mut note, inner);
            push_str(&mut note, "` is non-text (");
            push_decimal(&mut note, bytes.len());
            push_str(&mut note, " bytes), not inlined -->");
            Settled::Inline(note)
        },
    }
}

/// How many markers `pieces` holds.
pub open spec fn marker_count(pieces: Seq<Piece>) -> nat {
    marker_bodies(pieces).len()
}

/// `pieces` reassembled in document order: each literal as it is, each marker
/// replaced by the next of `expansions`.
pub open spec fn assembled(pieces: Seq<Piece>, expansions: Seq<Seq<char>>) -> Seq<char>
    decreases pieces.len(),
{
    if pieces.len() == 0 {
        Seq::empty()
    } else {
        match pieces[0] {
            Piece::Lit(t) => t + assembled(pieces.skip(1), expansions),
            Piece::Marker(_) => expansions[0] + assembled(pieces.skip(1), expansions.skip(1)),
        }
    }
}

proof fn lemma_marker_count_front(pieces: Seq<Piece>)
    requires
        pieces.len() > 0,
    ensures
        marker_count(pieces) == marker_count(pieces.skip(1)) + match pieces[0] {
            Piece::Marker(_) => 1nat,
            Piece::Lit(_) => 0nat,
        },
    decreases pieces.len(),
{
    if pieces.len() > 1 {
        lemma_marker_count_front(pieces.drop_last());
        assert(pieces.drop_last().skip(1) =~= pieces.skip(1).drop_last());
        assert(pieces.skip(1).last() == pieces.last());
    } else {
        assert(pieces.skip(1) =~= Seq::<Piece>::empty());
        assert(pieces.drop_last() =~= Seq::<Piece>::empty());
    }
}

/// Reassemble a level in document order: literals as they are, each marker
/// replaced by its expansion.
pub fn assemble(segments: &Vec<Segment>, expansions: &Vec<String>) -> (out: String)
    requires
        expansions@.len() >= marker_count(pieces_of(segments@)),
    ensures
        out@ == assembled(pieces_of(segments@), expansions@.map_values(|e: String| e@)),
{
    let ghost pieces = pieces_of(segments@);
    let ghost exps = expansions@.map_values(|e: String| e@);
    let mut out = String::new();
    let mut i: usize = 0;
    let mut m: usize = 0;
    let n = expansions.len();
    assert(pieces.skip(0) =~= pieces);
    assert(exps.skip(0) =~= exps);
    assert(out@ + assembled(pieces, exps) =~= assembled(pieces, exps));
    while i < segments.len()
        invariant
            i <= segments@.len(),
            pieces == pieces_of(segments@),
            exps == expansions@.map_values(|e: String| e@),
            n == expansions@.len(),
            m + marker_count(pieces.skip(i as int)) <= expansions@.len(),
            out@ + assembled(pieces.skip(i as int), exps.skip(m as int)) == assembled(pieces, exps),
        decreases segments@.len() - i,
    {
        let ghost rest = pieces.skip(i as int);
        proof {
            lemma_marker_count_front(rest);
        }
        assert(rest.skip(1) =~= pieces.skip(i + 1));
        assert(rest[0] == segments@[i as int]@);
        match &segments[i] {
            Segment::Lit(t) => {
                push_str(&mut out, t.as_str());
            },
            Segment::Marker(_) => {
                assert(rest[0] is Marker);
                assert(m < expansions@.len());
                push_str(&mut out, expansions[m].as_str());
                assert(exps.skip(m as int)[0] == expansions@[m as int]@);
                assert(exps.skip(m as int).skip(1) =~= exps.skip(m + 1));
                m = m + 1;
            },
        }
        i = i + 1;
    }
    assert(pieces.skip(segments@.len() as int) =~= Seq::<Piece>::empty());
    out
}

/// A shape without `$` is one literal, kept as it is: compose returns it
/// unchanged and asks for nothing.
pub proof fn text_without_dollar_is_kept(s: Seq<char>)
    requires
        !s.contains('$'),
    ensures
        scanned(encode_utf8(s)) == flush(s),
        marker_bodies(scanned(encode_utf8(s))) == Seq::<Seq<char>>::empty(),
        assembled(scanned(encode_utf8(s)), Seq::empty()) == s,
{
    let b = encode_utf8(s);
    assert(b.subrange(0, b.len() as int) =~= b);
    lemma_scan_plain(b, 0, s, Seq::empty());
    assert(Seq::<char>::empty() + s =~= s);
    lemma_bodies_flush(s);
    lemma_assembled_flush(s, Seq::empty());
}

/// `$$` is a literal `$`: between two texts without `$`, it comes out as one
/// `$`, so `$$a{…}` stays the literal text `$a{…}`.
pub proof fn double_dollar_is_a_literal_dollar(p: Seq<char>, t: Seq<char>)
    requires
        !p.contains('$'),
        !t.contains('$'),
    ensures
        scanned(encode_utf8(p + seq!['$', '$'] + t)) == seq![Piece::Lit(p + seq!['$'] + t)],
{
    let dd = seq!['$', '$'];
    lemma_ascii_encoding('$');
    assert(dd =~= seq!['$'] + seq!['$']);
    lemma_encode_concat(seq!['$'], seq!['$']);
    lemma_encode_concat(p, dd);
    lemma_encode_concat(p + dd, t);
    let ep = encode_utf8(p);
    let et = encode_utf8(t);
    let b = encode_utf8(p + dd + t);
    assert(b =~= ep + seq![36u8, 36u8] + et);
    let n = ep.len() as int;
    assert(b.subrange(0, n) =~= ep);
    lemma_scan_plain(b, 0, p, Seq::empty());
    assert(Seq::<char>::empty() + p =~= p);
    assert(b[n] == 36 && b[n + 1] == 36);
    assert(scan_from(b, n, p) == scan_from(b, n + 2, p.push('$')));
    assert(b.subrange(n + 2, n + 2 + et.len()) =~= et);
    lemma_scan_plain(b, n + 2, t, p.push('$'));
    assert(p.push('$') + t =~= p + seq!['$'] + t);
}

/// The encoding of `p + $a{ + body + } + t`, laid out part by part.
proof fn lemma_marker_layout(p: Seq<char>, body: Seq<char>, t: Seq<char>)
    ensures
        encode_utf8(p + seq!['$', 'a', '{'] + body + seq!['}'] + t) == encode_utf8(p) + seq![
            36u8,
            97u8,
            123u8,
        ] + encode_utf8(body) + seq![125u8] + encode_utf8(t),
{
    let open = seq!['$', 'a', '{'];
    lemma_ascii_encoding('$');
    lemma_ascii_encoding('a');
    lemma_ascii_encoding('{');
    lemma_ascii_encoding('}');
    assert(open =~= seq!['$'] + seq!['a'] + seq!['{']);
    lemma_encode_concat(seq!['$'], seq!['a']);
    lemma_encode_concat(seq!['$'] + seq!['a'], seq!['{']);
    assert(encode_utf8(open) =~= seq![36u8, 97u8, 123u8]);
    lemma_encode_concat(p, open);
    lemma_encode_concat(p + open, body);
    lemma_encode_concat(p + open + body, seq!['}']);
    lemma_encode_concat(p + open + body + seq!['}'], t);
}

/// A marker between two texts without `$` is recognised, with its body
/// trimmed, and the texts around it are kept as they are.
pub proof fn marker_between_texts(p: Seq<char>, body: Seq<char>, t: Seq<char>)
    requires
        !p.contains('$'),
        !t.contains('$'),
        !body.contains('}'),
        !body.contains('"'),
    ensures
        scanned(encode_utf8(p + seq!['$', 'a', '{'] + body + seq!['}'] + t)) == flush(p) + seq![
            Piece::Marker(trim(body)),
        ] + flush(t),
{
    lemma_marker_layout(p, body, t);
    let ep = encode_utf8(p);
    let eb = encode_utf8(body);
    let et = encode_utf8(t);
    let b = encode_utf8(p + seq!['$', 'a', '{'] + body + seq!['}'] + t);
    let n = ep.len() as int;
    let c = n + 3 + eb.len();
    assert(b.subrange(0, n) =~= ep);
    lemma_scan_plain(b, 0, p, Seq::empty());
    assert(Seq::<char>::empty() + p =~= p);
    assert(b[n] == 36 && b[n + 1] == 97 && b[n + 2] == 123);
    assert(opens_marker(b, n));
    assert(b.subrange(n + 3, c) =~= eb);
    lemma_close_plain(b, n + 3, body);
    assert(b[c] == 125);
    assert(marker_close(b, c, false) == Some(c));
    vstd::utf8::encode_utf8_decode_utf8(body);
    assert(scan_from(b, n, p) == flush(p) + seq![Piece::Marker(trim(body))] + scan_from(
        b,
        c + 1,
        Seq::empty(),
    ));
    assert(b.subrange(c + 1, c + 1 + et.len()) =~= et);
    lemma_scan_plain(b, c + 1, t, Seq::empty());
    assert(Seq::<char>::empty() + t =~= t);
    assert(c + 1 + et.len() == b.len());
}

/// An unterminated `$a{` stays literal: after a text without `$`, a `$a{`
/// followed by text with no `$`, `}` or `"` comes out as it stands.
#[verifier::rlimit(60)]
pub proof fn unterminated_marker_stays_literal(p: Seq<char>, t: Seq<char>)
    requires
        !p.contains('$'),
        !t.contains('$'),
        !t.contains('}'),
        !t.contains('"'),
    ensures
        scanned(encode_utf8(p + seq!['$', 'a', '{'] + t)) == seq![
            Piece::Lit(p + seq!['$', 'a', '{'] + t),
        ],
{
    let open = seq!['$', 'a', '{'];
    lemma_ascii_encoding('$');
    lemma_ascii_encoding('a');
    lemma_ascii_encoding('{');
    lemma_char_encoding('$');
    assert(open =~= seq!['$'] + seq!['a'] + seq!['{']);
    lemma_encode_concat(seq!['$'], seq!['a']);
    lemma_encode_concat(seq!['$'] + seq!['a'], seq!['{']);
    lemma_encode_concat(p, open);
    lemma_encode_concat(p + open, t);
    let rest = seq!['a', '{'] + t;
    assert(rest =~= seq!['a'] + seq!['{'] + t);
    lemma_encode_concat(seq!['a'], seq!['{']);
    lemma_encode_concat(seq!['a'] + seq!['{'], t);
    let ep = encode_utf8(p);
    let et = encode_utf8(t);
    let b = encode_utf8(p + open + t);
    assert(b =~= ep + seq![36u8, 97u8, 123u8] + et);
    let n = ep.len() as int;
    assert(b.subrange(0, n) =~= ep);
    lemma_scan_plain(b, 0, p, Seq::empty());
    assert(Seq::<char>::empty() + p =~= p);
    assert(b.subrange(n + 3, n + 3 + et.len()) =~= et);
    lemma_close_plain(b, n + 3, t);
    assert(marker_close(b, b.len() as int, false) is None);
    assert(utf8_width(b[n]) == 1);
    assert(b.subrange(n, n + 1) =~= encode_utf8(seq!['$']));
    assert(scan_from(b, n, p) == scan_from(b, n + 1, p + seq!['$']));
    assert(encode_utf8(rest) =~= seq![97u8, 123u8] + et);
    assert(b.subrange(n + 1, n + 1 + encode_utf8(rest).len()) =~= encode_utf8(rest));
    assert(!rest.contains('$')) by {
        if rest.contains('$') {
            let j = choose|j: int| 0 <= j < rest.len() && rest[j] == '$';
            if j >= 2 {
                assert(t[j - 2] == '$');
            }
        }
    }
    lemma_scan_plain(b, n + 1, rest, p + seq!['$']);
    assert(p + seq!['$'] + rest =~= p + open + t);
}

/// Splicing keeps the text around a marker: a shape holding one marker between
/// two texts without `$` asks for that one marker and, with its expansion `x`,
/// reads `p + x + t`.
pub proof fn splice_keeps_the_surrounding_text(
    p: Seq<char>,
    body: Seq<char>,
    t: Seq<char>,
    x: Seq<char>,
)
    requires
        !p.contains('$'),
        !t.contains('$'),
        !body.contains('}'),
        !body.contains('"'),
    ensures
        marker_bodies(scanned(encode_utf8(p + seq!['$', 'a', '{'] + body + seq!['}'] + t)))
            == seq![trim(body)],
        assembled(
            scanned(encode_utf8(p + seq!['$', 'a', '{'] + body + seq!['}'] + t)),
            seq![x],
        ) == p + x + t,
{
    marker_between_texts(p, body, t);
    let m = Piece::Marker(trim(body));
    let pieces = flush(p) + seq![m] + flush(t);
    lemma_bodies_append(flush(p) + seq![m], flush(t));
    lemma_bodies_append(flush(p), seq![m]);
    lemma_bodies_flush(p);
    lemma_bodies_flush(t);
    let one = seq![m];
    assert(one.drop_last() =~= Seq::<Piece>::empty());
    assert(one.last() == m);
    assert(marker_bodies(Seq::<Piece>::empty()) == Seq::<Seq<char>>::empty());
    assert(marker_bodies(one) =~= seq![trim(body)]);
    assert(marker_bodies(pieces) =~= seq![trim(body)]);
    lemma_assembled_flush(t, Seq::empty());
    assert(one.skip(1) =~= Seq::<Piece>::empty());
    assert((seq![m] + flush(t)).skip(1) =~= flush(t));
    assert(assembled(seq![m] + flush(t), seq![x]) == x + assembled(flush(t), seq![x].skip(1)));
    assert(seq![x].skip(1) =~= Seq::<Seq<char>>::empty());
    assert(assembled(seq![m] + flush(t), seq![x]) =~= x + t);
    lemma_assembled_lit_front(p, seq![m] + flush(t), seq![x]);
    assert(pieces =~= flush(p) + (seq![m] + flush(t)));
    assert(p + (x + t) =~= p + x + t);
}

proof fn lemma_bodies_append(a: Seq<Piece>, b: Seq<Piece>)
    ensures
        marker_bodies(a + b) == marker_bodies(a) + marker_bodies(b),
    decreases b.len(),
{
    if b.len() == 0 {
        assert(a + b =~= a);
        assert(marker_bodies(a) + marker_bodies(b) =~= marker_bodies(a));
    } else {
        assert((a + b).drop_last() =~= a + b.drop_last());
        assert((a + b).last() == b.last());
        lemma_bodies_append(a, b.drop_last());
        match b.last() {
            Piece::Marker(m) => {
                assert(marker_bodies(a + b) =~= marker_bodies(a) + marker_bodies(b));
            },
            Piece::Lit(_) => {},
        }
    }
}

proof fn lemma_bodies_flush(s: Seq<char>)
    ensures
        marker_bodies(flush(s)) == Seq::<Seq<char>>::empty(),
{
    assert(marker_bodies(Seq::<Piece>::empty()) == Seq::<Seq<char>>::empty());
    if s.len() > 0 {
        assert(flush(s).drop_last() =~= Seq::<Piece>::empty());
        assert(flush(s).last() == Piece::Lit(s));
    }
}

proof fn lemma_assembled_flush(s: Seq<char>, xs: Seq<Seq<char>>)
    ensures
        assembled(flush(s), xs) == s,
{
    assert(assembled(Seq::<Piece>::empty(), xs) == Seq::<char>::empty());
    if s.len() == 0 {
        assert(s =~= Seq::<char>::empty());
    } else {
        assert(flush(s).skip(1) =~= Seq::<Piece>::empty());
        assert(flush(s)[0] == Piece::Lit(s));
        assert(s + Seq::<char>::empty() =~= s);
    }
}

proof fn lemma_assembled_lit_front(s: Seq<char>, rest: Seq<Piece>, xs: Seq<Seq<char>>)
    ensures
        assembled(flush(s) + rest, xs) == s + assembled(rest, xs),
{
    if s.len() == 0 {
        assert(flush(s) + rest =~= rest);
        assert(s + assembled(rest, xs) =~= assembled(rest, xs));
    } else {
        assert((flush(s) + rest).skip(1) =~= rest);
        assert((flush(s) + rest)[0] == Piece::Lit(s));
    }
}

} // verus!

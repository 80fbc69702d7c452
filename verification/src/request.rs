use vstd::prelude::*;

use crate::chars::{chars_of, push_char, push_str, string_from};
use crate::error::{outcome, FnError, Failure};
use crate::iri::{check_iri, iri_refusal, is_iri};
use crate::text::{
    lemma_split_on_plain, split_on, split_ranges, trim, trim_end, trim_range, trim_start, white_space,
};

verus! {

/// `s` with each `\x` replaced by `x`; a trailing lone `\` stays.
pub open spec fn unescape(s: Seq<char>) -> Seq<char>
    decreases s.len(),
{
    if s.len() == 0 {
        Seq::empty()
    } else if s[0] == '\\' {
        if s.len() == 1 {
            seq!['\\']
        } else {
            seq![s[1]] + unescape(s.skip(2))
        }
    } else {
        seq![s[0]] + unescape(s.skip(1))
    }
}

/// A marker argument value with surrounding double quotes stripped and its
/// escapes undone; a value not wrapped in quotes is itself.
pub open spec fn unquoted(v: Seq<char>) -> Seq<char> {
    if v.len() >= 2 && v[0] == '"' && v.last() == '"' {
        unescape(v.subrange(1, v.len() - 1))
    } else {
        v
    }
}

/// Strip surrounding double quotes from a marker argument value, unescaping
/// `\"` and `\\`. An unquoted value is returned unchanged.
pub fn unquote(value: &str) -> (out: String)
    ensures
        out@ == unquoted(value@),
{
    let v = chars_of(value);
    let n = v.len();
    if n >= 2 && v[0] == '"' && v[n - 1] == '"' {
        let end = n - 1;
        let mut out = String::new();
        let mut i: usize = 1;
        while i < end
            invariant
                v@ == value@,
                1 <= i <= end + 1,
                end == v@.len() - 1,
                i <= end ==> out@ + unescape(v@.subrange(i as int, end as int)) == unescape(
                    v@.subrange(1, end as int),
                ),
                i > end ==> out@ == unescape(v@.subrange(1, end as int)),
            decreases end + 1 - i,
        {
            let ghost rest = v@.subrange(i as int, end as int);
            if v[i] == '\\' {
                if i + 1 < end {
                    push_char(&mut out, v[i + 1]);
                    assert(rest.skip(2) =~= v@.subrange(i + 2, end as int));
                    i = i + 2;
                } else {
                    push_char(&mut out, '\\');
                    i = i + 1;
                    assert(v@.subrange(i as int, end as int) =~= Seq::<char>::empty());
                }
            } else {
                push_char(&mut out, v[i]);
                assert(rest.skip(1) =~= v@.subrange(i + 1, end as int));
                i = i + 1;
            }
            if i <= end {
                assert(out@ + unescape(v@.subrange(i as int, end as int)) == unescape(
                    v@.subrange(1, end as int),
                ));
            }
        }
        if i == end {
            assert(v@.subrange(i as int, end as int) =~= Seq::<char>::empty());
        }
        out
    } else {
        value.to_owned()
    }
}

/// `s` with `\` put before each `"` and each `\`.
pub open spec fn escaped(s: Seq<char>) -> Seq<char>
    decreases s.len(),
{
    if s.len() == 0 {
        Seq::empty()
    } else if s[0] == '"' || s[0] == '\\' {
        seq!['\\', s[0]] + escaped(s.skip(1))
    } else {
        seq![s[0]] + escaped(s.skip(1))
    }
}

proof fn lemma_unescape_escaped(s: Seq<char>)
    ensures
        unescape(escaped(s)) == s,
    decreases s.len(),
{
    if s.len() > 0 {
        lemma_unescape_escaped(s.skip(1));
        let e = escaped(s);
        if s[0] == '"' || s[0] == '\\' {
            assert(e.skip(2) =~= escaped(s.skip(1)));
            assert(e[0] == '\\' && e[1] == s[0]);
        } else {
            assert(e.skip(1) =~= escaped(s.skip(1)));
            assert(e[0] == s[0]);
        }
        assert(seq![s[0]] + s.skip(1) =~= s);
    }
}

/// Any value written in double quotes, with each `"` and `\` inside escaped
/// by a `\`, reads back as written.
pub proof fn quoted_value_reads_back(s: Seq<char>)
    ensures
        unquoted(seq!['"'] + escaped(s) + seq!['"']) == s,
{
    let q = seq!['"'] + escaped(s) + seq!['"'];
    assert(q.subrange(1, q.len() - 1) =~= escaped(s));
    assert(q[0] == '"' && q.last() == '"');
    lemma_unescape_escaped(s);
}

/// `s` split at the first `c`, without the `c`; `None` when `s` holds none.
pub open spec fn split_once(s: Seq<char>, c: char) -> Option<(Seq<char>, Seq<char>)> {
    match s.index_of_first(c) {
        Some(k) => Some((s.take(k), s.skip(k + 1))),
        None => None,
    }
}

/// The offset of the first `c` in `v[lo..hi]`, if any.
pub fn find_char(v: &Vec<char>, lo: usize, hi: usize, c: char) -> (r: Option<usize>)
    requires
        lo <= hi <= v@.len(),
    ensures
        v@.subrange(lo as int, hi as int).index_of_first(c) == match r {
            Some(i) => Some(i - lo),
            None => None::<int>,
        },
        r matches Some(i) ==> lo <= i < hi && v@[i as int] == c,
{
    let ghost s = v@.subrange(lo as int, hi as int);
    let mut i = lo;
    while i < hi
        invariant
            lo <= i <= hi <= v@.len(),
            s == v@.subrange(lo as int, hi as int),
            forall|j: int| lo <= j < i ==> v@[j] != c,
        decreases hi - i,
    {
        if v[i] == c {
            proof {
                s.index_of_first_ensures(c);
                match s.index_of_first(c) {
                    Some(k) => {
                        assert(s[i - lo] == c);
                        if k < i - lo {
                            assert(s[k] == v@[lo + k]);
                        }
                        assert(k == i - lo);
                    },
                    None => {
                        assert(s[i - lo] == c);
                    },
                }
            }
            return Some(i);
        }
        i = i + 1;
    }
    proof {
        s.index_of_first_ensures(c);
        match s.index_of_first(c) {
            Some(k) => {
                assert(s[k] == v@[lo + k]);
            },
            None => {},
        }
    }
    None
}

/// The message for a marker argument that is not `key=value`.
pub open spec fn not_key_value(pair: Seq<char>) -> Seq<char> {
    "compose: marker argument `"@ + pair + "` is not key=value"@
}

/// The arguments that the `&`-separated `parts` of a marker query give, in
/// order: each part is trimmed, an empty one skipped, the rest split at the
/// first `=` into a trimmed key and a trimmed, unquoted value. The first part
/// without `=` is the error.
pub open spec fn query_args(parts: Seq<Seq<char>>) -> Result<Seq<(Seq<char>, Seq<char>)>, Failure>
    decreases parts.len(),
{
    if parts.len() == 0 {
        Ok(Seq::empty())
    } else {
        match query_args(parts.drop_last()) {
            Err(e) => Err(e),
            Ok(args) => {
                let pair = trim(parts.last());
                if pair.len() == 0 {
                    Ok(args)
                } else {
                    match split_once(pair, '=') {
                        None => Err(Failure::Endpoint(not_key_value(pair))),
                        Some((k, v)) => Ok(args.push((trim(k), unquoted(trim(v))))),
                    }
                }
            },
        }
    }
}

/// The arguments of the marker query `q`.
pub open spec fn parsed_query(q: Seq<char>) -> Result<Seq<(Seq<char>, Seq<char>)>, Failure> {
    query_args(split_on(q, '&'))
}

/// The views of a list of argument pairs.
pub open spec fn pairs_view(args: Seq<(String, String)>) -> Seq<(Seq<char>, Seq<char>)> {
    args.map_values(|a: (String, String)| (a.0@, a.1@))
}

/// Parse `k=v&k2="v with spaces"` marker arguments. A value may be
/// double-quoted (the quotes are stripped and `\"` / `\\` unescaped inside).
pub fn parse_query(query: &str) -> (r: Result<Vec<(String, String)>, FnError>)
    ensures
        match r {
            Ok(args) => parsed_query(query@) == Ok::<_, Failure>(pairs_view(args@)),
            Err(e) => parsed_query(query@) == Err::<Seq<(Seq<char>, Seq<char>)>, _>(e@),
        },
{
    let v = chars_of(query);
    let ranges = split_ranges(&v, 0, v.len(), '&');
    assert(v@.subrange(0, v@.len() as int) =~= query@);
    let ghost parts = split_on(query@, '&');
    let mut args: Vec<(String, String)> = Vec::new();
    assert(parts.take(0) =~= Seq::<Seq<char>>::empty());
    assert(pairs_view(args@) =~= Seq::<(Seq<char>, Seq<char>)>::empty());
    let mut k: usize = 0;
    while k < ranges.len()
        invariant
            k <= ranges@.len() == parts.len(),
            parts == split_on(query@, '&'),
            forall|j: int|
                0 <= j < ranges@.len() ==> {
                    &&& (#[trigger] ranges@[j]).0 <= ranges@[j].1 <= v@.len()
                    &&& v@.subrange(ranges@[j].0 as int, ranges@[j].1 as int) == parts[j]
                },
            query_args(parts.take(k as int)) == Ok::<_, Failure>(pairs_view(args@)),
        decreases ranges@.len() - k,
    {
        let ghost prefix = parts.take(k as int + 1);
        assert(prefix.drop_last() =~= parts.take(k as int));
        assert(prefix.last() == parts[k as int]);
        let (a, b) = ranges[k];
        let (c, d) = trim_range(&v, a, b);
        let ghost pair = v@.subrange(c as int, d as int);
        if c < d {
            match find_char(&v, c, d, '=') {
                None => {
                    let mut msg = String::new();
                    push_str(&mut msg, "compose: marker argument `");
                    let p = string_from(&v, c, d);
                    push_str(&mut msg, p.as_str());
                    push_str(&mut msg, "` is not key=value");
                    assert(parts =~= parts.take(k as int + 1) + parts.skip(k as int + 1));
                    proof {
                        lemma_query_args_stops(parts, k as int + 1);
                    }
                    return Err(FnError::Endpoint(msg));
                },
                Some(e) => {
                    let (ka, kb) = trim_range(&v, c, e);
                    let (va, vb) = trim_range(&v, e + 1, d);
                    assert(pair.index_of_first('=') == Some(e - c));
                    assert(pair.take(e - c) =~= v@.subrange(c as int, e as int));
                    assert(pair.skip(e - c + 1) =~= v@.subrange(e + 1, d as int));
                    assert(split_once(pair, '=') == Some(
                        (v@.subrange(c as int, e as int), v@.subrange(e + 1, d as int)),
                    ));
                    assert(trim(parts[k as int]) == pair);
                    let key = string_from(&v, ka, kb);
                    let raw = string_from(&v, va, vb);
                    let value = unquote(raw.as_str());
                    let ghost before = pairs_view(args@);
                    args.push((key, value));
                    assert(pairs_view(args@) =~= before.push((key@, value@)));
                },
            }
        } else {
            assert(pair =~= Seq::<char>::empty());
        }
        k = k + 1;
    }
    assert(parts.take(ranges@.len() as int) =~= parts);
    Ok(args)
}

/// Once a prefix of the parts fails, the whole query fails the same way.
proof fn lemma_query_args_stops(parts: Seq<Seq<char>>, n: int)
    requires
        0 <= n <= parts.len(),
        query_args(parts.take(n)) is Err,
    ensures
        query_args(parts) == query_args(parts.take(n)),
    decreases parts.len() - n,
{
    if n < parts.len() {
        assert(parts.take(n + 1).drop_last() =~= parts.take(n));
        lemma_query_args_stops(parts, n + 1);
    } else {
        assert(parts.take(n) =~= parts);
    }
}

/// Escaping adds only backslashes: any other character absent from `s` is
/// absent from `escaped(s)`.
proof fn lemma_escaped_avoids(s: Seq<char>, c: char)
    requires
        c != '\\',
        !s.contains(c),
    ensures
        !escaped(s).contains(c),
    decreases s.len(),
{
    if s.len() > 0 {
        let t = s.skip(1);
        assert(!t.contains(c)) by {
            if t.contains(c) {
                let j = choose|j: int| 0 <= j < t.len() && t[j] == c;
                assert(s[j + 1] == c);
            }
        }
        lemma_escaped_avoids(t, c);
        let e = escaped(s);
        let head = if s[0] == '"' || s[0] == '\\' { seq!['\\', s[0]] } else { seq![s[0]] };
        assert(e == head + escaped(t));
        if e.contains(c) {
            let j = choose|j: int| 0 <= j < e.len() && e[j] == c;
            if j >= head.len() {
                assert(escaped(t)[j - head.len()] == c);
            } else {
                assert(s[0] == c);
            }
        }
    }
}

/// Leading white space is trimmed away whatever follows it.
proof fn lemma_trim_start_after_space(space: Seq<char>, rest: Seq<char>)
    requires
        forall|i: int| 0 <= i < space.len() ==> white_space(#[trigger] space[i]),
    ensures
        trim_start(space + rest) == trim_start(rest),
    decreases space.len(),
{
    if space.len() > 0 {
        let tail = space.drop_first();
        assert((space + rest).drop_first() =~= tail + rest);
        assert(white_space(space[0]));
        assert(forall|i: int| 0 <= i < tail.len() ==> white_space(#[trigger] tail[i])) by {
            assert forall|i: int| 0 <= i < tail.len() implies white_space(#[trigger] tail[i]) by {
                assert(tail[i] == space[i + 1]);
            }
        }
        lemma_trim_start_after_space(tail, rest);
    } else {
        assert(space + rest =~= rest);
    }
}

/// A text that neither starts nor ends with white space is its own trim.
proof fn lemma_trim_of_bare(s: Seq<char>)
    requires
        s.len() == 0 || (!white_space(s[0]) && !white_space(s.last())),
    ensures
        trim(s) == s,
{
}

/// The part a spaced, quoted argument makes holds no `&`.
proof fn lemma_spaced_part_avoids_amp(key: Seq<char>, space: Seq<char>, value: Seq<char>)
    requires
        !key.contains('&'),
        forall|i: int| 0 <= i < space.len() ==> white_space(#[trigger] space[i]),
        !value.contains('&'),
    ensures
        !(key + seq!['='] + space + seq!['"'] + escaped(value) + seq!['"']).contains('&'),
{
    let q = key + seq!['='] + space + seq!['"'] + escaped(value) + seq!['"'];
    lemma_escaped_avoids(value, '&');
    if q.contains('&') {
        let j = choose|j: int| 0 <= j < q.len() && q[j] == '&';
        if j < key.len() {
            assert(key[j] == '&');
        } else if key.len() + 1 <= j < key.len() + 1 + space.len() {
            assert(space[j - key.len() - 1] == '&');
            assert(white_space(space[j - key.len() - 1]));
        } else if key.len() + 2 + space.len() <= j < q.len() - 1 {
            assert(escaped(value)[j - key.len() - 2 - space.len()] == '&');
        }
    }
}

/// A query of one bare part holding `=` gives the one pair it splits into.
proof fn lemma_single_pair(q: Seq<char>, key: Seq<char>, rest: Seq<char>)
    requires
        !q.contains('&'),
        trim(q) == q,
        q.len() > 0,
        split_once(q, '=') == Some((key, rest)),
    ensures
        parsed_query(q) == Ok::<_, Failure>(seq![(trim(key), unquoted(trim(rest)))]),
{
    lemma_split_on_plain(q, '&');
    let parts = split_on(q, '&');
    assert(parts.drop_last() =~= Seq::<Seq<char>>::empty());
    assert(query_args(parts.drop_last()) == Ok::<_, Failure>(Seq::<(Seq<char>, Seq<char>)>::empty()));
    assert(parts.last() == q);
    assert(Seq::<(Seq<char>, Seq<char>)>::empty().push((trim(key), unquoted(trim(rest)))) =~= seq![
        (trim(key), unquoted(trim(rest))),
    ]);
}

/// White space after `=` does not stop a quoted value from being unquoted:
/// the query made of a key, `=`, any white space and a value written in double
/// quotes (each `"` and `\` inside escaped by a `\`) parses to the one pair of
/// that key and that value. The key holds no `&` or `=` and is bare of white
/// space at both ends; the value holds no `&`, which splits a query wherever
/// it stands.
pub proof fn spaced_quoted_value_reads_back(key: Seq<char>, space: Seq<char>, value: Seq<char>)
    requires
        !key.contains('&'),
        !key.contains('='),
        key.len() == 0 || (!white_space(key[0]) && !white_space(key.last())),
        forall|i: int| 0 <= i < space.len() ==> white_space(#[trigger] space[i]),
        !value.contains('&'),
    ensures
        parsed_query(key + seq!['='] + space + seq!['"'] + escaped(value) + seq!['"']) == Ok::<
            _,
            Failure,
        >(seq![(key, value)]),
{
    let quoted = seq!['"'] + escaped(value) + seq!['"'];
    let v = space + quoted;
    let q = key + seq!['='] + space + seq!['"'] + escaped(value) + seq!['"'];
    lemma_spaced_part_avoids_amp(key, space, value);
    assert(q =~= key + (seq!['='] + v));
    assert(trim(q) == q) by {
        if key.len() > 0 {
            assert(q[0] == key[0]);
        } else {
            assert(q[0] == '=');
        }
        assert(q.last() == '"');
        lemma_trim_of_bare(q);
    }
    assert(split_once(q, '=') == Some((key, v))) by {
        q.index_of_first_ensures('=');
        assert(q[key.len() as int] == '=');
        match q.index_of_first('=') {
            Some(k) => {
                if k < key.len() {
                    assert(key[k] == q[k]);
                }
            },
            None => {},
        }
        assert(q.take(key.len() as int) =~= key);
        assert(q.skip(key.len() as int + 1) =~= v);
    }
    lemma_single_pair(q, key, v);
    lemma_trim_of_bare(key);
    assert(trim(v) == quoted) by {
        lemma_trim_start_after_space(space, quoted);
        assert(trim_start(quoted) == quoted);
        assert(trim_end(quoted) == quoted);
    }
    quoted_value_reads_back(value);
}

/// A SOURCE request a marker asks for: the IRI and the inline arguments, in order.
#[derive(Debug)]
pub struct MarkerRequest {
    pub iri: String,
    pub args: Vec<(String, String)>,
}

impl View for MarkerRequest {
    type V = (Seq<char>, Seq<(Seq<char>, Seq<char>)>);

    open spec fn view(&self) -> (Seq<char>, Seq<(Seq<char>, Seq<char>)>) {
        (self.iri@, pairs_view(self.args@))
    }
}

/// The message for a marker whose IRI part is not an IRI.
pub open spec fn bad_marker_iri(inner: Seq<char>, iri: Seq<char>) -> Seq<char> {
    "compose: bad IRI in marker `"@ + inner + "`: "@ + iri_refusal(iri)
}

/// The request the marker body `inner` (`<iri>[?k=v&…]`) asks for: the part
/// before the first `?`, trimmed, must be an IRI (with no `?`, all of `inner`);
/// the part after it holds the arguments.
pub open spec fn marker_request(inner: Seq<char>) -> Result<(Seq<char>, Seq<(Seq<char>, Seq<char>)>), Failure> {
    let (iri, query) = match split_once(inner, '?') {
        Some((i, q)) => (trim(i), Some(q)),
        None => (inner, None),
    };
    if !is_iri(iri) {
        Err(Failure::Endpoint(bad_marker_iri(inner, iri)))
    } else {
        match query {
            None => Ok((iri, Seq::empty())),
            Some(q) => match parsed_query(q) {
                Err(e) => Err(e),
                Ok(args) => Ok((iri, args)),
            },
        }
    }
}

/// Parse a marker body `<iri>[?k=v&…]` into a SOURCE request.
pub fn parse_marker(inner: &str) -> (r: Result<MarkerRequest, FnError>)
    ensures
        outcome(r) == marker_request(inner@),
{
    let v = chars_of(inner);
    let ghost cut = split_once(inner@, '?');
    let ghost want_iri = match cut {
        Some((i, _)) => trim(i),
        None => inner@,
    };
    let (iri, query) = match find_char(&v, 0, v.len(), '?') {
        Some(p) => {
            let (a, b) = trim_range(&v, 0, p);
            assert(v@.subrange(0, v@.len() as int) =~= inner@);
            assert(inner@.take(p as int) =~= v@.subrange(0, p as int));
            assert(inner@.skip(p + 1) =~= v@.subrange(p + 1, v@.len() as int));
            assert(inner@.index_of_first('?') == Some(p as int));
            let i = string_from(&v, a, b);
            let q = string_from(&v, p + 1, v.len());
            assert(cut == Some((inner@.take(p as int), q@)));
            assert(i@ == want_iri);
            (i, Some(q))
        },
        None => {
            assert(v@.subrange(0, v@.len() as int) =~= inner@);
            assert(cut is None);
            (inner.to_owned(), None)
        },
    };
    assert(iri@ == want_iri);
    assert(match query {
        Some(q) => cut matches Some((_, c)) && c == q@,
        None => cut is None,
    });
    match check_iri(iri.as_str()) {
        Err(e) => {
            let mut msg = String::new();
            push_str(&mut msg, "compose: bad IRI in marker `");
            push_str(&mut msg, inner);
            push_str(&mut msg, "`: ");
            push_str(&mut msg, e.as_str());
            Err(FnError::Endpoint(msg))
        },
        Ok(()) => match query {
            None => {
                let args: Vec<(String, String)> = Vec::new();
                assert(pairs_view(args@) =~= Seq::<(Seq<char>, Seq<char>)>::empty());
                Ok(MarkerRequest { iri, args })
            },
            Some(q) => match parse_query(q.as_str()) {
                Err(e) => Err(e),
                Ok(args) => Ok(MarkerRequest { iri, args }),
            },
        },
    }
}

} // verus!

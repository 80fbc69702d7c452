use std::collections::HashMap;

use ikigai_fn::{
    assemble, compose_source, find_marker_end, parse_marker, parse_query, plan_expansion, scan,
    settle_marker, shape_text, to_upper_text, unquote, utf8_len, FnError, MarkerRequest, Segment,
    Settled, COMPOSE_MAX_DEPTH,
};

/// A stand-in for the kernel: resources by IRI, and `toUpper` over its `in`.
struct Resources {
    shapes: HashMap<&'static str, &'static str>,
}

impl Resources {
    fn new(shapes: &[(&'static str, &'static str)]) -> Self {
        Resources {
            shapes: shapes.iter().copied().collect(),
        }
    }

    fn resolve(&self, request: &MarkerRequest) -> Result<Vec<u8>, String> {
        if request.iri == "urn:iki:fn:toUpper" {
            let input = request
                .args
                .iter()
                .find(|(k, _)| k == "in")
                .map(|(_, v)| v.as_str())
                .ok_or_else(|| "missing in".to_string())?;
            return Ok(to_upper_text(input).into_bytes());
        }
        self.shapes
            .get(request.iri.as_str())
            .map(|s| s.as_bytes().to_vec())
            .ok_or_else(|| format!("unresolved {}", request.iri))
    }

    /// Expand `text` the way the endpoint does, level by level.
    fn expand(&self, text: &str, depth: usize) -> Result<String, String> {
        let plan = plan_expansion(text, depth).map_err(|e| format!("{e:?}"))?;
        let markers: Vec<String> = plan
            .segments
            .iter()
            .filter_map(|s| match s {
                Segment::Marker(m) => Some(m.clone()),
                Segment::Lit(_) => None,
            })
            .collect();
        let mut expansions = Vec::new();
        for (request, inner) in plan.requests.iter().zip(markers.iter()) {
            let bytes = self.resolve(request)?;
            match settle_marker(inner, &bytes) {
                Settled::Expand(s) => expansions.push(self.expand(&s, depth + 1)?),
                Settled::Inline(note) => expansions.push(note),
            }
        }
        Ok(assemble(&plan.segments, &expansions))
    }

    /// `compose` with `src` naming a shape.
    fn compose(&self, src: &str) -> Result<String, String> {
        let iri = compose_source(src).map_err(|e| format!("{e:?}"))?;
        let bytes = self.resolve(&MarkerRequest { iri: iri.clone(), args: Vec::new() })?;
        let text = shape_text(&bytes, &iri).map_err(|e| format!("{e:?}"))?;
        self.expand(&text, 0)
    }
}

fn page(shape: &'static str) -> Resources {
    Resources::new(&[("urn:data:page", shape)])
}

#[test]
fn expands_a_marker_with_a_quoted_argument() {
    let out = page(r#"<h1>$a{urn:iki:fn:toUpper?in="hi there"}</h1>"#).compose("urn:data:page");
    assert_eq!(out.unwrap(), "<h1>HI THERE</h1>");
}

#[test]
fn a_double_dollar_keeps_a_marker_literal() {
    let out = page("show $$a{urn:iki:fn:toUpper?in=x} verbatim").compose("urn:data:page");
    assert_eq!(out.unwrap(), "show $a{urn:iki:fn:toUpper?in=x} verbatim");
}

#[test]
fn recurses_into_transcluded_shapes() {
    let r = Resources::new(&[
        ("urn:data:page", "[$a{urn:data:inner}]"),
        ("urn:data:inner", "$a{urn:iki:fn:toUpper?in=hi}"),
    ]);
    assert_eq!(r.compose("urn:data:page").unwrap(), "[HI]");
}

#[test]
fn text_around_and_between_markers_is_preserved() {
    let out = page("a $a{urn:iki:fn:toUpper?in=b} c $a{urn:iki:fn:toUpper?in=d} e")
        .compose("urn:data:page");
    assert_eq!(out.unwrap(), "a B c D e");
}

#[test]
fn a_shape_without_dollar_comes_back_unchanged() {
    let text = "plain <b>text</b>, ünïcode and {braces}";
    let out = page(text).compose("urn:data:page");
    assert_eq!(out.unwrap(), text);
}

#[test]
fn a_cyclic_shape_hits_the_recursion_limit() {
    let r = Resources::new(&[("urn:data:page", "x$a{urn:data:page}")]);
    let err = r.compose("urn:data:page").unwrap_err();
    assert!(err.contains("compose: recursion limit (32) exceeded"), "{err}");
}

#[test]
fn the_recursion_limit_is_checked_before_scanning() {
    match plan_expansion("no markers", COMPOSE_MAX_DEPTH) {
        Err(FnError::Endpoint(m)) => {
            assert_eq!(m, "compose: recursion limit (32) exceeded — cyclic transclusion?")
        }
        _ => panic!("expected the recursion limit"),
    }
    assert!(plan_expansion("no markers", COMPOSE_MAX_DEPTH - 1).is_ok());
}

#[test]
fn a_src_that_is_not_an_iri_is_an_invalid_argument() {
    match compose_source("no scheme here") {
        Err(FnError::InvalidArgument { name, detail }) => {
            assert_eq!(name, "src");
            assert!(detail.starts_with("not an IRI: invalid IRI"), "{detail}");
        }
        other => panic!("unexpected {other:?}"),
    }
    assert_eq!(compose_source("urn:data:page").unwrap(), "urn:data:page");
}

#[test]
fn a_shape_that_is_not_utf8_is_refused() {
    match shape_text(&[0xff, 0xfe], "urn:data:bin") {
        Err(FnError::Endpoint(m)) => assert_eq!(m, "compose: `urn:data:bin` is not UTF-8 text"),
        other => panic!("unexpected {other:?}"),
    }
    assert_eq!(shape_text("héllo".as_bytes(), "urn:x").unwrap(), "héllo");
}

#[test]
fn a_non_text_marker_is_noted_not_inlined() {
    match settle_marker("urn:data:bin", &[0xc3, 0x28, 0x00]) {
        Settled::Inline(note) => assert_eq!(
            note,
            "<!-- compose: `urn:data:bin` is non-text (3 bytes), not inlined -->"
        ),
        Settled::Expand(_) => panic!("bytes are not UTF-8"),
    }
    match settle_marker("urn:x", b"text") {
        Settled::Expand(t) => assert_eq!(t, "text"),
        Settled::Inline(_) => panic!("bytes are UTF-8"),
    }
}

#[test]
fn a_non_text_marker_note_counts_many_bytes() {
    let mut bytes = vec![0xffu8; 1234];
    bytes[0] = 0x80;
    match settle_marker("m", &bytes) {
        Settled::Inline(note) => {
            assert_eq!(note, "<!-- compose: `m` is non-text (1234 bytes), not inlined -->")
        }
        Settled::Expand(_) => panic!("bytes are not UTF-8"),
    }
}

fn views(segments: &[Segment]) -> Vec<(bool, String)> {
    segments
        .iter()
        .map(|s| match s {
            Segment::Lit(t) => (false, t.clone()),
            Segment::Marker(m) => (true, m.clone()),
        })
        .collect()
}

#[test]
fn scan_splits_literals_and_trimmed_markers() {
    let s = scan("a $a{ urn:x?k=v } b");
    assert_eq!(
        views(&s),
        vec![
            (false, "a ".to_string()),
            (true, "urn:x?k=v".to_string()),
            (false, " b".to_string())
        ]
    );
}

#[test]
fn scan_keeps_an_unterminated_marker_literal() {
    assert_eq!(views(&scan("x $a{urn:y")), vec![(false, "x $a{urn:y".to_string())]);
    assert_eq!(views(&scan("$")), vec![(false, "$".to_string())]);
    assert!(scan("").is_empty());
}

#[test]
fn scan_skips_a_closing_brace_inside_quotes() {
    let s = scan(r#"$a{urn:x?v="a}b\"c"}!"#);
    assert_eq!(
        views(&s),
        vec![(true, r#"urn:x?v="a}b\"c""#.to_string()), (false, "!".to_string())]
    );
}

#[test]
fn scan_carries_multibyte_text() {
    let s = scan("été $a{urn:ü} ☃");
    assert_eq!(
        views(&s),
        vec![
            (false, "été ".to_string()),
            (true, "urn:ü".to_string()),
            (false, " ☃".to_string())
        ]
    );
}

#[test]
fn find_marker_end_reports_the_closing_byte() {
    assert_eq!(find_marker_end("$a{urn:x}", 2), Some(8));
    assert_eq!(find_marker_end(r#"$a{"}"}"#, 2), Some(6));
    assert_eq!(find_marker_end("$a{urn:x", 2), None);
    assert_eq!(find_marker_end("ab", 5), None);
    // Only `\"` and `\\` are escapes: a backslash before anything else is itself.
    assert_eq!(find_marker_end(r#"$a{"\é"}"#, 2), Some(8));
    assert_eq!(find_marker_end(r#"$a{"\\"}"#, 2), Some(7));
    assert_eq!(find_marker_end(r#"$a{"\"}"}"#, 2), Some(8));
    assert_eq!(find_marker_end(r#"$a{"\"#, 2), None);
}

#[test]
fn utf8_len_reads_the_leading_byte() {
    assert_eq!(utf8_len(b'a'), 1);
    assert_eq!(utf8_len(0xc3), 2);
    assert_eq!(utf8_len(0xe2), 3);
    assert_eq!(utf8_len(0xf0), 4);
    assert_eq!(utf8_len(0x80), 4);
}

#[test]
fn unquote_strips_quotes_and_escapes() {
    assert_eq!(unquote(r#""hi there""#), "hi there");
    assert_eq!(unquote(r#""a\"b\\c""#), r#"a"b\c"#);
    assert_eq!(unquote(r#""trailing\""#), "trailing\\");
    assert_eq!(unquote("plain"), "plain");
    assert_eq!(unquote("\""), "\"");
    assert_eq!(unquote("\"\""), "");
}

#[test]
fn a_quoted_value_reads_back_as_written() {
    for s in ["", "x", r#"say "hi""#, r#"back\slash"#, "ü\\\""] {
        let mut q = String::from("\"");
        for c in s.chars() {
            if c == '"' || c == '\\' {
                q.push('\\');
            }
            q.push(c);
        }
        q.push('"');
        assert_eq!(unquote(&q), s);
    }
}

#[test]
fn parse_query_reads_pairs_in_order() {
    let args = parse_query(r#" a = 1 && b="two words" &c= "#).unwrap();
    assert_eq!(
        args,
        vec![
            ("a".to_string(), "1".to_string()),
            ("b".to_string(), "two words".to_string()),
            ("c".to_string(), "".to_string())
        ]
    );
    assert!(parse_query("").unwrap().is_empty());
}

#[test]
fn parse_query_refuses_a_pair_without_equals() {
    match parse_query("a=1& b &c") {
        Err(FnError::Endpoint(m)) => {
            assert_eq!(m, "compose: marker argument `b` is not key=value")
        }
        other => panic!("unexpected {other:?}"),
    }
}

#[test]
fn parse_marker_reads_the_iri_and_arguments() {
    let r = parse_marker("urn:iki:fn:toUpper ?in=x=y").unwrap();
    assert_eq!(r.iri, "urn:iki:fn:toUpper");
    assert_eq!(r.args, vec![("in".to_string(), "x=y".to_string())]);
    let r = parse_marker("urn:data:inner").unwrap();
    assert_eq!(r.iri, "urn:data:inner");
    assert!(r.args.is_empty());
}

#[test]
fn parse_marker_refuses_a_bad_iri_before_its_arguments() {
    match parse_marker("not an iri?bad") {
        Err(FnError::Endpoint(m)) => {
            assert!(m.starts_with("compose: bad IRI in marker `not an iri?bad`: invalid IRI"), "{m}")
        }
        other => panic!("unexpected {other:?}"),
    }
    match parse_marker("urn:x?bad") {
        Err(FnError::Endpoint(m)) => {
            assert_eq!(m, "compose: marker argument `bad` is not key=value")
        }
        other => panic!("unexpected {other:?}"),
    }
}

#[test]
fn a_bad_marker_fails_the_whole_level() {
    let err = page("ok $a{urn:iki:fn:toUpper?in=a} then $a{urn:x?oops}").compose("urn:data:page");
    assert!(err.unwrap_err().contains("marker argument `oops` is not key=value"));
}

#[test]
fn assemble_splices_in_document_order() {
    let segments = scan("<$a{urn:a}|$a{urn:b}>");
    let out = assemble(&segments, &vec!["1".to_string(), "2".to_string()]);
    assert_eq!(out, "<1|2>");
}

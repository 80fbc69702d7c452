use ikigai_fn::{
    echo_text, greet_text, reverse_list_text, split_text, to_upper_text, wrap_text, FnError,
};

#[test]
fn to_upper_upper_cases_the_in_argument() {
    assert_eq!(to_upper_text("hi there"), "HI THERE");
}

#[test]
fn to_upper_follows_unicode_case_mapping() {
    assert_eq!(to_upper_text("tschüß"), "TSCHÜSS");
    assert_eq!(to_upper_text(""), "");
}

#[test]
fn reverse_list_reverses_newline_items() {
    assert_eq!(reverse_list_text("a\nb\nc"), "c\nb\na");
}

#[test]
fn reverse_list_keeps_empty_items() {
    assert_eq!(reverse_list_text("a\n\nb\n"), "\nb\n\na");
    assert_eq!(reverse_list_text(""), "");
    assert_eq!(reverse_list_text("solo"), "solo");
}

#[test]
fn reverse_list_twice_gives_back_the_list() {
    for s in ["a\nb\nc", "x\n\ny\n", "\n", "one", "é\nü\n"] {
        assert_eq!(reverse_list_text(&reverse_list_text(s)), s);
    }
}

#[test]
fn split_makes_a_newline_list_for_map() {
    assert_eq!(split_text("a, b ,c"), "a\nb\nc");
}

#[test]
fn split_keeps_empty_fields_and_trims_unicode_space() {
    assert_eq!(split_text(",x,"), "\nx\n");
    assert_eq!(split_text("\u{a0}a\u{3000}"), "a");
    assert_eq!(split_text(""), "");
}

#[test]
fn split_output_reads_as_one_line_per_field() {
    let out = split_text(" a ,b, c d ");
    let lines: Vec<&str> = out.split('\n').collect();
    assert_eq!(lines, vec!["a", "b", "c d"]);
    assert_eq!(reverse_list_text(&out), "c d\nb\na");
}

#[test]
fn wrap_routes_the_text_argument() {
    assert_eq!(wrap_text("hi"), "[hi]");
    assert_eq!(wrap_text(""), "[]");
}

#[test]
fn greet_combines_two_arguments() {
    assert_eq!(greet_text("Hello", "World"), "Hello, World");
}

#[test]
fn echo_returns_the_captured_binding() {
    match echo_text(Some("ping")) {
        Ok(s) => assert_eq!(s, "ping"),
        Err(e) => panic!("unexpected {e:?}"),
    }
}

#[test]
fn echo_without_a_binding_is_a_missing_argument() {
    match echo_text(None) {
        Err(FnError::MissingArgument(name)) => assert_eq!(name, "message"),
        other => panic!("unexpected {other:?}"),
    }
}

#[test]
fn white_space_agrees_with_std_on_every_char() {
    for v in 0u32..=0x10ffff {
        if let Some(c) = char::from_u32(v) {
            assert_eq!(ikigai_fn::text::is_white(c), c.is_whitespace(), "U+{v:04X}");
        }
    }
}

use std::cell::RefCell;

use ikigai_fn::{
    as_bool, branch_arguments, branch_step, condition_iri, ArgRead, Branch, BranchRefusal,
    FnError, Side,
};

/// A stand-in for the kernel: fixed resources, recording what is sourced.
struct Kernel {
    sourced: RefCell<Vec<String>>,
}

impl Kernel {
    fn new() -> Self {
        Kernel {
            sourced: RefCell::new(Vec::new()),
        }
    }

    fn source(&self, iri: &str) -> Result<Vec<u8>, String> {
        self.sourced.borrow_mut().push(iri.to_string());
        match iri {
            "urn:test:true" => Ok(b"true".to_vec()),
            "urn:test:false" => Ok(b"false".to_vec()),
            "urn:test:maybe" => Ok(b"maybe".to_vec()),
            "urn:test:A" => Ok(b"branch-A".to_vec()),
            "urn:test:B" => Ok(b"branch-B".to_vec()),
            other => Err(format!("unresolved {other}")),
        }
    }

    /// `conditional` the way the endpoint runs it.
    fn cond(&self, if_u: &str, then_u: &str, else_u: Option<&str>) -> Result<Vec<u8>, String> {
        self.run(Some(if_u), ArgRead::Given(then_u), else_u.map_or(ArgRead::Absent, ArgRead::Given))
    }

    fn run(&self, if_u: Option<&str>, then_a: ArgRead, else_a: ArgRead) -> Result<Vec<u8>, String> {
        let if_u = if_u.ok_or_else(|| "MissingArgument(\"if\")".to_string())?;
        let cond = condition_iri(if_u).map_err(|e| format!("{e:?}"))?;
        let branches = branch_arguments(then_a, else_a).map_err(|e| format!("{e:?}"))?;
        let verdict = self.source(&cond)?;
        let value = as_bool(&verdict, &cond).map_err(|e| format!("{e:?}"))?;
        match branch_step(value, branches) {
            Branch::Source(iri) => self.source(&iri),
            Branch::Empty => Ok(Vec::new()),
        }
    }
}

#[test]
fn true_takes_the_then_branch() {
    let out = Kernel::new().cond("urn:test:true", "urn:test:A", Some("urn:test:B"));
    assert_eq!(out.unwrap(), b"branch-A");
}

#[test]
fn false_takes_the_else_branch() {
    let out = Kernel::new().cond("urn:test:false", "urn:test:A", Some("urn:test:B"));
    assert_eq!(out.unwrap(), b"branch-B");
}

#[test]
fn false_without_else_is_empty() {
    let out = Kernel::new().cond("urn:test:false", "urn:test:A", None).unwrap();
    assert!(out.is_empty());
}

#[test]
fn the_untaken_branch_is_never_sourced() {
    let k = Kernel::new();
    let out = k.cond("urn:test:true", "urn:test:A", Some("urn:does:not:exist")).unwrap();
    assert_eq!(out, b"branch-A");
    assert_eq!(*k.sourced.borrow(), vec!["urn:test:true", "urn:test:A"]);
}

#[test]
fn a_non_boolean_condition_errors() {
    assert!(Kernel::new().cond("urn:test:maybe", "urn:test:A", None).is_err());
}

#[test]
fn booleans_are_read_leniently() {
    for (text, value) in [
        ("true", true),
        (" TRUE\n", true),
        ("1", true),
        ("Yes", true),
        ("on", true),
        ("false", false),
        ("0", false),
        ("NO", false),
        ("Off", false),
        ("", false),
        ("  \t", false),
    ] {
        assert_eq!(as_bool(text.as_bytes(), "urn:c").unwrap(), value, "{text:?}");
    }
}

#[test]
fn a_non_boolean_names_the_condition_and_its_value() {
    match as_bool(b" Maybe ", "urn:test:maybe") {
        Err(FnError::Endpoint(m)) => assert_eq!(
            m,
            "conditional: `urn:test:maybe` returned \"maybe\", not a boolean (true/false/1/0/yes/no)"
        ),
        other => panic!("unexpected {other:?}"),
    }
    match as_bool(b"tr\"ue", "urn:q") {
        Err(FnError::Endpoint(m)) => assert_eq!(
            m,
            "conditional: `urn:q` returned \"tr\\\"ue\", not a boolean (true/false/1/0/yes/no)"
        ),
        other => panic!("unexpected {other:?}"),
    }
}

#[test]
fn a_condition_that_is_not_utf8_errors() {
    match as_bool(&[0xff], "urn:bin") {
        Err(FnError::Endpoint(m)) => assert_eq!(m, "conditional: `urn:bin` is not UTF-8 text"),
        other => panic!("unexpected {other:?}"),
    }
}

#[test]
fn a_condition_that_is_not_an_iri_is_an_invalid_argument() {
    match condition_iri("no scheme here") {
        Err(FnError::InvalidArgument { name, detail }) => {
            assert_eq!(name, "if");
            assert!(detail.starts_with("not an IRI: "), "{detail}");
        }
        other => panic!("unexpected {other:?}"),
    }
}

#[test]
fn required_inputs_are_required() {
    let k = Kernel::new();
    for flag in ["urn:test:true", "urn:test:false"] {
        let err = k.run(Some(flag), ArgRead::Absent, ArgRead::Given("urn:test:B")).unwrap_err();
        assert_eq!(err, "Refused(MissingArgument(\"then\"))", "{flag}");
        let err = k.run(Some(flag), ArgRead::Absent, ArgRead::Absent).unwrap_err();
        assert_eq!(err, "Refused(MissingArgument(\"then\"))", "{flag}");
    }
    let err = k.run(None, ArgRead::Given("urn:test:A"), ArgRead::Absent).unwrap_err();
    assert_eq!(err, "MissingArgument(\"if\")");
    assert!(k.sourced.borrow().is_empty(), "nothing is sourced before the arguments hold");
}

#[test]
fn classed_inputs_are_held_to_their_class() {
    const NOT_AN_IRI: &str = "no scheme here";
    match condition_iri(NOT_AN_IRI) {
        Err(FnError::InvalidArgument { name, .. }) => assert_eq!(name, "if"),
        other => panic!("unexpected {other:?}"),
    }
    // The untaken branch is held to its class too.
    match branch_arguments(ArgRead::Given("urn:test:A"), ArgRead::Given(NOT_AN_IRI)) {
        Err(BranchRefusal::Refused(FnError::InvalidArgument { name, detail })) => {
            assert_eq!(name, "else");
            assert!(detail.starts_with("not an IRI: "), "{detail}");
        }
        other => panic!("unexpected {other:?}"),
    }
    match branch_arguments(ArgRead::Given(NOT_AN_IRI), ArgRead::Given("urn:test:B")) {
        Err(BranchRefusal::Refused(FnError::InvalidArgument { name, .. })) => {
            assert_eq!(name, "then")
        }
        other => panic!("unexpected {other:?}"),
    }
    let k = Kernel::new();
    assert!(k.cond("urn:test:true", "urn:test:A", Some(NOT_AN_IRI)).is_err());
    assert!(k.cond("urn:test:false", NOT_AN_IRI, Some("urn:test:B")).is_err());
}

#[test]
fn an_unreadable_branch_fails_as_its_read_did() {
    assert!(matches!(
        branch_arguments(ArgRead::Unreadable, ArgRead::Absent),
        Err(BranchRefusal::Unreadable(Side::Then))
    ));
    assert!(matches!(
        branch_arguments(ArgRead::Given("urn:test:A"), ArgRead::Unreadable),
        Err(BranchRefusal::Unreadable(Side::Else))
    ));
}

#[test]
fn branch_steps() {
    let both = || branch_arguments(ArgRead::Given("urn:test:A"), ArgRead::Given("urn:test:B")).unwrap();
    match branch_step(true, both()) {
        Branch::Source(iri) => assert_eq!(iri, "urn:test:A"),
        Branch::Empty => panic!("expected then"),
    }
    match branch_step(false, both()) {
        Branch::Source(iri) => assert_eq!(iri, "urn:test:B"),
        Branch::Empty => panic!("expected else"),
    }
    let then_only = branch_arguments(ArgRead::Given("urn:test:A"), ArgRead::Absent).unwrap();
    assert!(matches!(branch_step(false, then_only), Branch::Empty));
}

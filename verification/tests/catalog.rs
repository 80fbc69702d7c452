use ikigai_fn::catalog::{describe, mounts, Function, Mount, ServedVerb, XSD_ANY_URI, XSD_STRING};
use ikigai_fn::{compose, conditional};

const ALL: [Function; 8] = [
    Function::ToUpper,
    Function::ReverseList,
    Function::Split,
    Function::Wrap,
    Function::Greet,
    Function::Echo,
    Function::Compose,
    Function::Conditional,
];

fn pattern(m: &Mount) -> &'static str {
    match m {
        Mount::Exact(iri) => iri,
        Mount::Template(t) => t,
    }
}

#[test]
fn every_declared_input_has_a_class() {
    let mut untyped = Vec::new();
    for (mount, f) in mounts() {
        for input in describe(f).inputs {
            if input.class.is_none() {
                untyped.push(format!("{}#{}", pattern(&mount), input.name));
            }
        }
    }
    assert!(untyped.is_empty(), "inputs without a class: {untyped:?}");
}

/// The IRIs whose every required input takes a value of `class`.
fn offered(class: &str) -> Vec<&'static str> {
    mounts()
        .into_iter()
        .filter(|(_, f)| {
            describe(*f)
                .inputs
                .iter()
                .filter(|i| !i.optional)
                .all(|i| i.class == Some(class))
        })
        .map(|(m, _)| pattern(&m))
        .collect()
}

#[test]
fn typed_selection_offers_the_text_and_iri_functions() {
    let strings = offered(XSD_STRING);
    for expected in [
        "urn:iki:fn:toUpper",
        "urn:iki:fn:reverseList",
        "urn:demo:split",
        "urn:demo:wrap",
        "urn:demo:greet",
        "urn:demo:echo/{message}",
    ] {
        assert!(strings.contains(&expected), "{expected} in {strings:?}");
    }
    let iris = offered(XSD_ANY_URI);
    for expected in ["urn:iki:fn:compose", "urn:iki:fn:conditional"] {
        assert!(iris.contains(&expected), "{expected} in {iris:?}");
    }
    assert!(!iris.contains(&"urn:iki:fn:toUpper"), "{iris:?}");
}

#[test]
fn each_endpoint_is_named_after_its_function() {
    let ids: Vec<&str> = ALL.iter().map(|f| describe(*f).id).collect();
    assert_eq!(
        ids,
        vec!["toUpper", "reverseList", "split", "wrap", "greet", "echo", "compose", "conditional"]
    );
}

#[test]
fn every_function_is_mounted_once() {
    let m = mounts();
    assert_eq!(m.len(), 8);
    for f in ALL {
        assert_eq!(m.iter().filter(|(_, g)| *g == f).count(), 1, "{f:?}");
    }
}

#[test]
fn only_else_is_optional_and_only_message_is_a_binding() {
    for f in ALL {
        for input in describe(f).inputs {
            assert_eq!(input.optional, f == Function::Conditional && input.name == "else");
            assert_eq!(input.binding, f == Function::Echo);
        }
    }
    assert_eq!(describe(Function::Compose).output, Some("text/html"));
    assert_eq!(describe(Function::Conditional).output, None);
}

#[test]
fn every_endpoint_serves_source_and_meta() {
    for f in ALL {
        assert_eq!(describe(f).verbs, vec![ServedVerb::Source, ServedVerb::Meta], "{f:?}");
    }
}

#[test]
fn resolving_endpoints_are_named_by_their_ids() {
    assert_eq!(compose().name(), "compose");
    assert_eq!(conditional().name(), "conditional");
    assert_eq!(compose().name(), describe(Function::Compose).id);
    assert_eq!(conditional().name(), describe(Function::Conditional).id);
}

#[test]
fn conditional_describes_its_three_iri_inputs() {
    let d = describe(Function::Conditional);
    assert_eq!(d.id, "conditional");
    assert_eq!(d.title, "Conditional");
    assert!(d.summary.starts_with("Sources `if` and reads it as a boolean"));
    let names: Vec<&str> = d.inputs.iter().map(|i| i.name).collect();
    assert_eq!(names, vec!["if", "then", "else"]);
    for i in &d.inputs {
        assert_eq!(i.class, Some(XSD_ANY_URI));
    }
    assert_eq!(d.inputs[2].summary, "IRI to source and return when `if` is false (optional)");
}

#[test]
fn titles_follow_the_functions() {
    let titles: Vec<&str> = ALL.iter().map(|f| describe(*f).title).collect();
    assert_eq!(
        titles,
        vec!["Upper-case", "Reverse list", "Split", "Wrap", "Greet", "Echo", "Compose", "Conditional"]
    );
    assert_eq!(describe(Function::Greet).inputs[1].summary, "who to greet");
}

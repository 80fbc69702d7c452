use vstd::prelude::*;

verus! {

/// The datatype every text-valued input declares. Type-driven selection
/// matches on an input's class and nothing else, so an input without one is
/// invisible to it.
pub const XSD_STRING: &'static str = "http://www.w3.org/2001/XMLSchema#string";

/// The datatype of an input whose value is the IRI of another resource.
pub const XSD_ANY_URI: &'static str = "http://www.w3.org/2001/XMLSchema#anyURI";

/// The conventional `text/plain; charset=utf-8` media type, as a description
/// output.
pub const TEXT_PLAIN_UTF8: &'static str = "text/plain;charset=utf-8";

/// The functions of the library.
#[derive(Debug, Clone, Copy, PartialEq, Eq, Structural)]
pub enum Function {
    ToUpper,
    ReverseList,
    Split,
    Wrap,
    Greet,
    Echo,
    Compose,
    Conditional,
}

/// Whether `f` takes the IRIs of other resources (and not text) as inputs.
pub open spec fn resolves(f: Function) -> bool {
    f == Function::Compose || f == Function::Conditional
}

/// One declared input of an endpoint.
#[derive(Debug)]
pub struct InputSpec {
    pub name: &'static str,
    pub summary: &'static str,
    /// The datatype of the input's value.
    pub class: Option<&'static str>,
    /// Whether the input may be left out.
    pub optional: bool,
    /// Whether the input is captured by the resolving grammar rather than passed.
    pub binding: bool,
}

/// A verb an endpoint answers: `Source` computes its representation, `Meta`
/// returns its self-description.
#[derive(Debug, Clone, Copy, PartialEq, Eq, Structural)]
pub enum ServedVerb {
    Source,
    Meta,
}

/// What an endpoint says of itself: its id, title, summary, the verbs it
/// serves, its inputs and, where it declares one, its output media type.
#[derive(Debug)]
pub struct EndpointSpec {
    pub id: &'static str,
    pub title: &'static str,
    pub summary: &'static str,
    pub verbs: Vec<ServedVerb>,
    pub inputs: Vec<InputSpec>,
    pub output: Option<&'static str>,
}

/// The verbs every endpoint of the library serves, in the order it lists them.
pub open spec fn served_verbs() -> Seq<ServedVerb> {
    seq![ServedVerb::Source, ServedVerb::Meta]
}

/// The class each input of `f` declares: the IRI datatype for the two that
/// resolve other resources, the string datatype for the rest.
pub open spec fn input_class(f: Function) -> &'static str {
    if resolves(f) {
        XSD_ANY_URI
    } else {
        XSD_STRING
    }
}

/// The id of `f`'s endpoint: the function's name in lowerCamelCase.
pub open spec fn function_id(f: Function) -> &'static str {
    match f {
        Function::ToUpper => "toUpper",
        Function::ReverseList => "reverseList",
        Function::Split => "split",
        Function::Wrap => "wrap",
        Function::Greet => "greet",
        Function::Echo => "echo",
        Function::Compose => "compose",
        Function::Conditional => "conditional",
    }
}

/// The names of `f`'s inputs, in declaration order.
pub open spec fn input_names(f: Function) -> Seq<&'static str> {
    match f {
        Function::ToUpper => seq!["in"],
        Function::ReverseList => seq!["in"],
        Function::Split => seq!["in"],
        Function::Wrap => seq!["text"],
        Function::Greet => seq!["greeting", "name"],
        Function::Echo => seq!["message"],
        Function::Compose => seq!["src"],
        Function::Conditional => seq!["if", "then", "else"],
    }
}

/// The two endpoints that resolve other resources take IRIs, the text
/// functions take strings: each endpoint's inputs declare the class of value
/// its body reads them as.
pub proof fn declared_classes_match_what_is_read()
    ensures
        input_class(Function::ToUpper) == XSD_STRING,
        input_class(Function::ReverseList) == XSD_STRING,
        input_class(Function::Split) == XSD_STRING,
        input_class(Function::Wrap) == XSD_STRING,
        input_class(Function::Greet) == XSD_STRING,
        input_class(Function::Echo) == XSD_STRING,
        input_class(Function::Compose) == XSD_ANY_URI,
        input_class(Function::Conditional) == XSD_ANY_URI,
{
}

/// Each endpoint declares, as its inputs, exactly the arguments its body reads,
/// so that the kernel routes a positional argument to the name the body asks
/// for: `in` for `toUpper`, `reverseList` and `split`; `text` for `wrap`;
/// `greeting` then `name` for `greet`; `message` for `echo`; `src` for
/// `compose`; `if`, `then`, `else` for `conditional`.
pub proof fn declared_inputs_are_the_read_arguments()
    ensures
        input_names(Function::ToUpper) =~= seq!["in"],
        input_names(Function::ReverseList) =~= seq!["in"],
        input_names(Function::Split) =~= seq!["in"],
        input_names(Function::Wrap) =~= seq!["text"],
        input_names(Function::Greet) =~= seq!["greeting", "name"],
        input_names(Function::Echo) =~= seq!["message"],
        input_names(Function::Compose) =~= seq!["src"],
        input_names(Function::Conditional) =~= seq!["if", "then", "else"],
{
}

/// The media type `f`'s endpoint declares as its output: `compose` declares
/// HTML, `conditional` none, the rest UTF-8 plain text.
pub open spec fn output_of(f: Function) -> Option<&'static str> {
    match f {
        Function::Compose => Some("text/html"),
        Function::Conditional => None,
        _ => Some(TEXT_PLAIN_UTF8),
    }
}

/// The title of `f`'s endpoint.
pub open spec fn function_title(f: Function) -> &'static str {
    match f {
        Function::ToUpper => "Upper-case",
        Function::ReverseList => "Reverse list",
        Function::Split => "Split",
        Function::Wrap => "Wrap",
        Function::Greet => "Greet",
        Function::Echo => "Echo",
        Function::Compose => "Compose",
        Function::Conditional => "Conditional",
    }
}

/// The one-paragraph summary of `f`'s endpoint.
pub open spec fn function_summary(f: Function) -> &'static str {
    match f {
        Function::ToUpper => "Upper-cases the UTF-8 text supplied in the `in` argument.",
        Function::ReverseList => "Reverses the order of newline-separated items in the `in` argument.",
        Function::Split => "Splits the `in` argument on commas into newline-separated items.",
        Function::Wrap => "Surrounds the `text` argument with square brackets.",
        Function::Greet => "Combines `greeting` and `name` into a greeting.",
        Function::Echo => "Returns the `message` segment captured from the resource identifier.",
        Function::Compose => "Recursively expands `$a{<iri>}` transclusion markers in the resource named by the `src` argument, resolving each embedded resource through the kernel and splicing it in. A literal marker is written `$$a{…}`. The output mirrors the source's media type and stays cacheable only while every transcluded part is.",
        Function::Conditional => "Sources `if` and reads it as a boolean (true/false/1/0/yes/no), then sources and returns ONLY `then` (when true) or the optional `else` (when false) — the untaken branch is never invoked. A false condition with no `else` returns nothing. The lazy counterpart to compose's eager fan-out.",
    }
}

/// The summaries of `f`'s inputs, in declaration order.
pub open spec fn input_summaries(f: Function) -> Seq<&'static str> {
    match f {
        Function::ToUpper => seq!["the text to upper-case"],
        Function::ReverseList => seq!["newline-separated items"],
        Function::Split => seq!["comma-separated items"],
        Function::Wrap => seq!["the text to wrap"],
        Function::Greet => seq!["the salutation, e.g. Hello", "who to greet"],
        Function::Echo => seq!["the text to echo, captured from the path by the resolving grammar"],
        Function::Compose => seq!["the IRI of the shape resource to compose"],
        Function::Conditional => seq![
            "IRI of a resource whose value is a boolean",
            "IRI to source and return when `if` is true",
            "IRI to source and return when `if` is false (optional)",
        ],
    }
}

/// A text input of class `xsd:string`.
fn text_input(name: &'static str, summary: &'static str) -> (i: InputSpec)
    ensures
        i.name == name,
        i.summary == summary,
        i.class == Some(XSD_STRING),
        !i.optional,
        !i.binding,
{
    InputSpec { name, summary, class: Some(XSD_STRING), optional: false, binding: false }
}

/// An IRI input of class `xsd:anyURI`.
fn iri_input(name: &'static str, summary: &'static str, optional: bool) -> (i: InputSpec)
    ensures
        i.name == name,
        i.summary == summary,
        i.class == Some(XSD_ANY_URI),
        i.optional == optional,
        !i.binding,
{
    InputSpec { name, summary, class: Some(XSD_ANY_URI), optional, binding: false }
}

/// The self-description of `f`'s endpoint. Every endpoint serves `Source`
/// and `Meta`; every input declares a class — `xsd:anyURI` for `compose` and
/// `conditional`, `xsd:string` for the rest — and the id is the function's
/// name. Only `conditional`'s `else` may be left out, and only `echo`'s
/// `message` is captured by the resolving grammar.
pub fn describe(f: Function) -> (d: EndpointSpec)
    ensures
        d.id == function_id(f),
        d.title == function_title(f),
        d.summary == function_summary(f),
        d.verbs@ == served_verbs(),
        d.inputs@.len() == input_names(f).len(),
        input_summaries(f).len() == input_names(f).len(),
        forall|k: int|
            0 <= k < d.inputs@.len() ==> {
                &&& (#[trigger] d.inputs@[k]).name == input_names(f)[k]
                &&& d.inputs@[k].summary == input_summaries(f)[k]
                &&& d.inputs@[k].class == Some(input_class(f))
                &&& d.inputs@[k].optional == (f == Function::Conditional && k == 2)
                &&& d.inputs@[k].binding == (f == Function::Echo)
            },
        d.output == output_of(f),
{
    match f {
        Function::ToUpper => EndpointSpec {
            id: "toUpper",
            title: "Upper-case",
            verbs: vec![ServedVerb::Source, ServedVerb::Meta],
            summary: "Upper-cases the UTF-8 text supplied in the `in` argument.",
            inputs: vec![text_input("in", "the text to upper-case")],
            output: Some(TEXT_PLAIN_UTF8),
        },
        Function::ReverseList => EndpointSpec {
            id: "reverseList",
            title: "Reverse list",
            verbs: vec![ServedVerb::Source, ServedVerb::Meta],
            summary: "Reverses the order of newline-separated items in the `in` argument.",
            inputs: vec![text_input("in", "newline-separated items")],
            output: Some(TEXT_PLAIN_UTF8),
        },
        Function::Split => EndpointSpec {
            id: "split",
            title: "Split",
            verbs: vec![ServedVerb::Source, ServedVerb::Meta],
            summary: "Splits the `in` argument on commas into newline-separated items.",
            inputs: vec![text_input("in", "comma-separated items")],
            output: Some(TEXT_PLAIN_UTF8),
        },
        Function::Wrap => EndpointSpec {
            id: "wrap",
            title: "Wrap",
            verbs: vec![ServedVerb::Source, ServedVerb::Meta],
            summary: "Surrounds the `text` argument with square brackets.",
            inputs: vec![text_input("text", "the text to wrap")],
            output: Some(TEXT_PLAIN_UTF8),
        },
        Function::Greet => EndpointSpec {
            id: "greet",
            title: "Greet",
            verbs: vec![ServedVerb::Source, ServedVerb::Meta],
            summary: "Combines `greeting` and `name` into a greeting.",
            inputs: vec![
                text_input("greeting", "the salutation, e.g. Hello"),
                text_input("name", "who to greet"),
            ],
            output: Some(TEXT_PLAIN_UTF8),
        },
        Function::Echo => {
            let mut message = text_input(
                "message",
                "the text to echo, captured from the path by the resolving grammar",
            );
            message.binding = true;
            EndpointSpec {
                id: "echo",
                title: "Echo",
                verbs: vec![ServedVerb::Source, ServedVerb::Meta],
            summary: "Returns the `message` segment captured from the resource identifier.",
                inputs: vec![message],
                output: Some(TEXT_PLAIN_UTF8),
            }
        },
        Function::Compose => EndpointSpec {
            id: "compose",
            title: "Compose",
            verbs: vec![ServedVerb::Source, ServedVerb::Meta],
            summary: "Recursively expands `$a{<iri>}` transclusion markers in the resource named by the `src` argument, resolving each embedded resource through the kernel and splicing it in. A literal marker is written `$$a{…}`. The output mirrors the source's media type and stays cacheable only while every transcluded part is.",
            inputs: vec![iri_input("src", "the IRI of the shape resource to compose", false)],
            output: Some("text/html"),
        },
        Function::Conditional => EndpointSpec {
            id: "conditional",
            title: "Conditional",
            verbs: vec![ServedVerb::Source, ServedVerb::Meta],
            summary: "Sources `if` and reads it as a boolean (true/false/1/0/yes/no), then sources and returns ONLY `then` (when true) or the optional `else` (when false) — the untaken branch is never invoked. A false condition with no `else` returns nothing. The lazy counterpart to compose's eager fan-out.",
            inputs: vec![
                iri_input("if", "IRI of a resource whose value is a boolean", false),
                iri_input("then", "IRI to source and return when `if` is true", false),
                iri_input("else", "IRI to source and return when `if` is false (optional)", true),
            ],
            output: None,
        },
    }
}

/// Where a function is mounted: at one IRI, or at every IRI a template matches.
#[derive(Debug)]
pub enum Mount {
    Exact(&'static str),
    Template(&'static str),
}

/// The conventional place of `f`: the library's own functions under
/// `urn:iki:fn:`, the demonstrations under `urn:demo:`, `echo` at a template
/// capturing `message`.
pub open spec fn conventional_mount(f: Function) -> Mount {
    match f {
        Function::ToUpper => Mount::Exact("urn:iki:fn:toUpper"),
        Function::ReverseList => Mount::Exact("urn:iki:fn:reverseList"),
        Function::Compose => Mount::Exact("urn:iki:fn:compose"),
        Function::Conditional => Mount::Exact("urn:iki:fn:conditional"),
        Function::Wrap => Mount::Exact("urn:demo:wrap"),
        Function::Split => Mount::Exact("urn:demo:split"),
        Function::Greet => Mount::Exact("urn:demo:greet"),
        Function::Echo => Mount::Template("urn:demo:echo/{message}"),
    }
}

/// Whether `f` is mounted somewhere in `m`.
pub open spec fn mounted(m: Seq<(Mount, Function)>, f: Function) -> bool {
    exists|k: int| 0 <= k < m.len() && (#[trigger] m[k]).1 == f
}

/// The library's functions at their conventional IRIs, in binding order:
/// every function once.
pub fn mounts() -> (m: Vec<(Mount, Function)>)
    ensures
        m@.len() == 8,
        forall|f: Function| #[trigger] mounted(m@, f),
        forall|j: int, k: int| 0 <= j < k < m@.len() ==> (#[trigger] m@[j]).1 != (#[trigger] m@[k]).1,
        forall|k: int| 0 <= k < m@.len() ==> (#[trigger] m@[k]).0 == conventional_mount(m@[k].1),
{
    let m = vec![
        (Mount::Exact("urn:iki:fn:toUpper"), Function::ToUpper),
        (Mount::Exact("urn:iki:fn:reverseList"), Function::ReverseList),
        (Mount::Exact("urn:iki:fn:compose"), Function::Compose),
        (Mount::Exact("urn:iki:fn:conditional"), Function::Conditional),
        (Mount::Exact("urn:demo:wrap"), Function::Wrap),
        (Mount::Exact("urn:demo:split"), Function::Split),
        (Mount::Exact("urn:demo:greet"), Function::Greet),
        (Mount::Template("urn:demo:echo/{message}"), Function::Echo),
    ];
    assert forall|f: Function| #[trigger] mounted(m@, f) by {
        match f {
            Function::ToUpper => assert(m@[0].1 == f),
            Function::ReverseList => assert(m@[1].1 == f),
            Function::Compose => assert(m@[2].1 == f),
            Function::Conditional => assert(m@[3].1 == f),
            Function::Wrap => assert(m@[4].1 == f),
            Function::Split => assert(m@[5].1 == f),
            Function::Greet => assert(m@[6].1 == f),
            Function::Echo => assert(m@[7].1 == f),
        }
    }
    m
}

} // verus!

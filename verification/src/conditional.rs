use vstd::prelude::*;
use vstd::utf8::*;

use crate::catalog::{function_id, Function};
use crate::chars::{chars_of, push_char, push_str};
use crate::error::{outcome, FnError, Failure};
use crate::iri::{iri_argument, parse_iri};
use crate::text::{trim, trim_end, trim_range, trim_start, white_space};
use crate::bytes::decode_text;

verus! {

/// `conditional`: the lazy sibling of [`Compose`](crate::Compose). Sources the
/// `if` resource, reads it as a boolean, and sources — and returns — only `then`
/// (true) or the optional `else` (false). The untaken branch is never invoked,
/// but its argument is held to its class like the taken one: `then` is required
/// whatever the condition says, and each IRI argument given must be an IRI.
/// `if` is always evaluated; a false condition with no `else` yields an empty
/// representation.
///
/// The decisions are split in steps: [`condition_iri`] checks `if`,
/// [`branch_arguments`] checks `then` and `else`, [`as_bool`] reads the
/// condition's value and [`branch_step`] says which branch to source.
/// Reading the arguments and sourcing are the host's.
pub struct Conditional;

/// `conditional`: branch on a boolean resource, invoking only the taken side.
/// See [`Conditional`].
pub fn conditional() -> Conditional {
    Conditional
}

impl Conditional {
    /// The endpoint's name, which is its id.
    pub fn name(&self) -> (n: &'static str)
        ensures
            n == function_id(Function::Conditional),
    {
        "conditional"
    }
}

/// The IRI `conditional` sources first: its `if` argument, which must be an IRI.
pub fn condition_iri(if_arg: &str) -> (r: Result<String, FnError>)
    ensures
        outcome(r) == iri_argument(if_arg@, "if"@),
{
    parse_iri(if_arg, "if")
}

/// `s` with `A`–`Z` mapped to `a`–`z` and every other character kept.
pub open spec fn ascii_lower(s: Seq<char>) -> Seq<char> {
    s.map_values(|c: char| if 'A' <= c <= 'Z' { ((c as u32) + 32) as char } else { c })
}

/// The boolean a condition's (trimmed, lower-cased) text spells, if any:
/// `true`, `1`, `yes`, `on` are true; `false`, `0`, `no`, `off` and the empty
/// text are false.
pub open spec fn boolean_word(w: Seq<char>) -> Option<bool> {
    if w == "true"@ || w == "1"@ || w == "yes"@ || w == "on"@ {
        Some(true)
    } else if w == "false"@ || w == "0"@ || w == "no"@ || w == "off"@ || w.len() == 0 {
        Some(false)
    } else {
        None
    }
}

/// What `<str as Debug>::fmt` writes for `s`: `s` quoted, with escapes.
pub uninterp spec fn debug_text(s: Seq<char>) -> Seq<char>;

/// `<str as Debug>::fmt`: `s` written in double quotes with its escapes.
#[verifier::external_body]
fn debug_quoted(s: &str) -> (d: String)
    ensures
        d@ == debug_text(s@),
{
    format!("{:?}", s)
}

/// The message for a condition whose value is not UTF-8 text.
pub open spec fn condition_not_text(iri: Seq<char>) -> Seq<char> {
    "conditional: `"@ + iri + "` is not UTF-8 text"@
}

/// The message for a condition whose value spells no boolean.
pub open spec fn not_a_boolean(iri: Seq<char>, word: Seq<char>) -> Seq<char> {
    "conditional: `"@ + iri + "` returned "@ + debug_text(word)
        + ", not a boolean (true/false/1/0/yes/no)"@
}

/// How the value `bytes` of the condition resource `iri` reads as a boolean:
/// UTF-8 text, trimmed and lower-cased in ASCII, must spell one.
pub open spec fn condition_value(bytes: Seq<u8>, iri: Seq<char>) -> Result<bool, Failure> {
    if !valid_utf8(bytes) {
        Err(Failure::Endpoint(condition_not_text(iri)))
    } else {
        let w = ascii_lower(trim(decode_utf8(bytes)));
        match boolean_word(w) {
            Some(b) => Ok(b),
            None => Err(Failure::Endpoint(not_a_boolean(iri, w))),
        }
    }
}

/// Whether the characters of `v` are exactly those of `word`.
fn same_chars(v: &Vec<char>, word: &str) -> (b: bool)
    ensures
        b == (v@ == word@),
{
    let w = chars_of(word);
    if v.len() != w.len() {
        return false;
    }
    let mut i: usize = 0;
    while i < v.len()
        invariant
            i <= v@.len() == w@.len(),
            w@ == word@,
            forall|j: int| 0 <= j < i ==> v@[j] == w@[j],
        decreases v@.len() - i,
    {
        if v[i] != w[i] {
            return false;
        }
        i = i + 1;
    }
    assert(v@ =~= w@);
    true
}

/// Interpret a resource's bytes as a boolean — lenient on common spellings,
/// strict on anything else so a malformed condition can't silently mis-branch.
pub fn as_bool(bytes: &[u8], iri: &str) -> (r: Result<bool, FnError>)
    ensures
        match r {
            Ok(b) => condition_value(bytes@, iri@) == Ok::<bool, Failure>(b),
            Err(e) => condition_value(bytes@, iri@) == Err::<bool, Failure>(e@),
        },
{
    let text = match decode_text(bytes) {
        Some(t) => t,
        None => {
            let mut msg = String::new();
            push_str(&mut msg, "conditional: `");
            push_str(&mut msg, iri);
            push_str(&mut msg, "` is not UTF-8 text");
            return Err(FnError::Endpoint(msg));
        },
    };
    let v = chars_of(text.as_str());
    let (a, b) = trim_range(&v, 0, v.len());
    assert(v@.subrange(0, v@.len() as int) =~= text@);
    let ghost trimmed = v@.subrange(a as int, b as int);
    let mut w: Vec<char> = Vec::new();
    let mut i = a;
    while i < b
        invariant
            a <= i <= b <= v@.len(),
            trimmed == v@.subrange(a as int, b as int),
            w@ == ascii_lower(v@.subrange(a as int, i as int)),
        decreases b - i,
    {
        let c = v[i];
        let l = if 'A' <= c && c <= 'Z' {
            ((c as u8) + 32) as char
        } else {
            c
        };
        w.push(l);
        assert(ascii_lower(v@.subrange(a as int, i + 1)) =~= ascii_lower(
            v@.subrange(a as int, i as int),
        ).push(l));
        i = i + 1;
    }
    let ghost word = w@;
    assert(word == ascii_lower(trim(decode_utf8(bytes@))));
    if same_chars(&w, "true") || same_chars(&w, "1") || same_chars(&w, "yes") || same_chars(
        &w,
        "on",
    ) {
        Ok(true)
    } else if same_chars(&w, "false") || same_chars(&w, "0") || same_chars(&w, "no")
        || same_chars(&w, "off") || w.len() == 0 {
        Ok(false)
    } else {
        let mut shown = String::new();
        let mut k: usize = 0;
        while k < w.len()
            invariant
                k <= w@.len(),
                shown@ == w@.take(k as int),
            decreases w@.len() - k,
        {
            push_char(&mut shown, w[k]);
            assert(w@.take(k + 1) =~= w@.take(k as int).push(w@[k as int]));
            k = k + 1;
        }
        assert(w@.take(w@.len() as int) =~= w@);
        let mut msg = String::new();
        push_str(&mut msg, "conditional: `");
        push_str(&mut msg, iri);
        push_str(&mut msg, "` returned ");
        let d = debug_quoted(shown.as_str());
        push_str(&mut msg, d.as_str());
        push_str(&mut msg, ", not a boolean (true/false/1/0/yes/no)");
        Err(FnError::Endpoint(msg))
    }
}

/// Whether `lower` is `text` with some of its letters `A`–`Z` (any of them,
/// all or none) replaced by the matching letters `a`–`z`, and nothing else
/// changed.
pub open spec fn lowers_some_letters(text: Seq<char>, lower: Seq<char>) -> bool {
    &&& lower.len() == text.len()
    &&& forall|i: int|
        #![trigger lower[i]]
        0 <= i < text.len() ==> lower[i] == text[i] || ('A' <= text[i] <= 'Z' && lower[i] as u32
            == text[i] as u32 + 32)
}

/// Lowering letters never turns white space into text or text into white space.
proof fn lemma_lowering_keeps_white(text: Seq<char>, lower: Seq<char>, i: int)
    requires
        lowers_some_letters(text, lower),
        0 <= i < text.len(),
    ensures
        white_space(text[i]) == white_space(lower[i]),
{
    assert(lower[i] == text[i] || ('A' <= text[i] <= 'Z' && lower[i] as u32 == text[i] as u32 + 32));
}

proof fn lemma_trim_start_lowering(text: Seq<char>, lower: Seq<char>)
    requires
        lowers_some_letters(text, lower),
    ensures
        lowers_some_letters(trim_start(text), trim_start(lower)),
    decreases text.len(),
{
    if text.len() > 0 {
        lemma_lowering_keeps_white(text, lower, 0);
        if white_space(text[0]) {
            let (t, l) = (text.drop_first(), lower.drop_first());
            assert forall|i: int| #![trigger l[i]] 0 <= i < t.len() implies l[i] == t[i] || ('A'
                <= t[i] <= 'Z' && l[i] as u32 == t[i] as u32 + 32) by {
                assert(l[i] == lower[i + 1] && t[i] == text[i + 1]);
            }
            lemma_trim_start_lowering(t, l);
        }
    }
}

proof fn lemma_trim_end_lowering(text: Seq<char>, lower: Seq<char>)
    requires
        lowers_some_letters(text, lower),
    ensures
        lowers_some_letters(trim_end(text), trim_end(lower)),
    decreases text.len(),
{
    if text.len() > 0 {
        lemma_lowering_keeps_white(text, lower, text.len() - 1);
        if white_space(text.last()) {
            let (t, l) = (text.drop_last(), lower.drop_last());
            assert forall|i: int| #![trigger l[i]] 0 <= i < t.len() implies l[i] == t[i] || ('A'
                <= t[i] <= 'Z' && l[i] as u32 == t[i] as u32 + 32) by {
                assert(l[i] == lower[i] && t[i] == text[i]);
            }
            lemma_trim_end_lowering(t, l);
        }
    }
}

/// Texts that differ only in the case of some ASCII letters lower-case alike.
proof fn lemma_lowering_agrees(text: Seq<char>, lower: Seq<char>)
    requires
        lowers_some_letters(text, lower),
    ensures
        ascii_lower(text) == ascii_lower(lower),
{
    assert forall|i: int| 0 <= i < text.len() implies ascii_lower(text)[i] == ascii_lower(
        lower,
    )[i] by {
        let (c, d) = (text[i], lower[i]);
        assert(d == c || ('A' <= c <= 'Z' && d as u32 == c as u32 + 32));
        if d != c {
            char_u32_cast(d, d as u32);
        }
    }
    assert(ascii_lower(text) =~= ascii_lower(lower));
}

/// Reading a condition ignores ASCII case: a text reads as the same boolean,
/// or fails the same way, whichever of its letters `A`–`Z` are written in
/// lower case.
pub proof fn reading_a_condition_ignores_ascii_case(
    text: Seq<char>,
    lower: Seq<char>,
    iri: Seq<char>,
)
    requires
        lowers_some_letters(text, lower),
    ensures
        condition_value(encode_utf8(text), iri) == condition_value(encode_utf8(lower), iri),
{
    encode_utf8_valid_utf8(text);
    encode_utf8_valid_utf8(lower);
    encode_utf8_decode_utf8(text);
    encode_utf8_decode_utf8(lower);
    lemma_trim_start_lowering(text, lower);
    lemma_trim_end_lowering(trim_start(text), trim_start(lower));
    lemma_lowering_agrees(trim(text), trim(lower));
}

/// Every ASCII case variant of `true` reads true and of `false` reads false.
pub proof fn case_variants_of_true_and_false(text: Seq<char>, iri: Seq<char>)
    ensures
        lowers_some_letters(text, "true"@) ==> condition_value(encode_utf8(text), iri) == Ok::<
            bool,
            Failure,
        >(true),
        lowers_some_letters(text, "false"@) ==> condition_value(encode_utf8(text), iri) == Ok::<
            bool,
            Failure,
        >(false),
{
    reveal_strlit("true");
    reveal_strlit("false");
    reveal_strlit("1");
    reveal_strlit("yes");
    reveal_strlit("on");
    reveal_strlit("0");
    reveal_strlit("no");
    reveal_strlit("off");
    let (t, f) = ("true"@, "false"@);
    encode_utf8_valid_utf8(t);
    encode_utf8_decode_utf8(t);
    encode_utf8_valid_utf8(f);
    encode_utf8_decode_utf8(f);
    assert(trim_start(t) == t);
    assert(trim_end(t) == t);
    assert(ascii_lower(t) =~= t);
    assert(trim_start(f) == f);
    assert(trim_end(f) == f);
    assert(ascii_lower(f) =~= f);
    if lowers_some_letters(text, t) {
        reading_a_condition_ignores_ascii_case(text, t, iri);
    }
    if lowers_some_letters(text, f) {
        reading_a_condition_ignores_ascii_case(text, f, iri);
    }
}

/// An argument as the host read it off the invocation.
#[derive(Debug)]
pub enum ArgRead<'a> {
    /// Given, as this text.
    Given(&'a str),
    /// Not given at all.
    Absent,
    /// Given, but not readable as text.
    Unreadable,
}

/// An [`ArgRead`] with its text taken as characters.
pub enum ArgView {
    Given(Seq<char>),
    Absent,
    Unreadable,
}

impl<'a> View for ArgRead<'a> {
    type V = ArgView;

    open spec fn view(&self) -> ArgView {
        match self {
            ArgRead::Given(s) => ArgView::Given(s@),
            ArgRead::Absent => ArgView::Absent,
            ArgRead::Unreadable => ArgView::Unreadable,
        }
    }
}

/// One of the two branches.
#[derive(Debug, Clone, Copy, PartialEq, Eq, Structural)]
pub enum Side {
    Then,
    Else,
}

/// Why the branch arguments were refused.
#[derive(Debug)]
pub enum BranchRefusal {
    /// Refused with this error.
    Refused(FnError),
    /// The argument of this side could not be read: fail as its read failed.
    Unreadable(Side),
}

/// A [`BranchRefusal`] with its error taken by its view.
pub enum RefusalView {
    Refused(Failure),
    Unreadable(Side),
}

impl View for BranchRefusal {
    type V = RefusalView;

    open spec fn view(&self) -> RefusalView {
        match self {
            BranchRefusal::Refused(e) => RefusalView::Refused(e@),
            BranchRefusal::Unreadable(s) => RefusalView::Unreadable(*s),
        }
    }
}

/// The two branches, checked: the IRI of `then` and, when given, of `else`.
#[derive(Debug)]
pub struct Branches {
    pub then_iri: String,
    pub else_iri: Option<String>,
}

/// The branch arguments `then` and `else` as read, checked in that order:
/// `then` is required and must be an IRI; `else` may be absent, and when given
/// must be an IRI; an argument that could not be read fails as its read did.
pub open spec fn checked_branches(then_arg: ArgView, else_arg: ArgView) -> Result<
    (Seq<char>, Option<Seq<char>>),
    RefusalView,
> {
    match then_arg {
        ArgView::Absent => Err(RefusalView::Refused(Failure::MissingArgument("then"@))),
        ArgView::Unreadable => Err(RefusalView::Unreadable(Side::Then)),
        ArgView::Given(t) => match iri_argument(t, "then"@) {
            Err(e) => Err(RefusalView::Refused(e)),
            Ok(then_iri) => match else_arg {
                ArgView::Absent => Ok((then_iri, None)),
                ArgView::Unreadable => Err(RefusalView::Unreadable(Side::Else)),
                ArgView::Given(e) => match iri_argument(e, "else"@) {
                    Err(f) => Err(RefusalView::Refused(f)),
                    Ok(else_iri) => Ok((then_iri, Some(else_iri))),
                },
            },
        },
    }
}

/// The views of checked branches.
pub open spec fn branches_view(b: Branches) -> (Seq<char>, Option<Seq<char>>) {
    (
        b.then_iri@,
        match b.else_iri {
            Some(e) => Some(e@),
            None => None,
        },
    )
}

/// Check `conditional`'s branch arguments, both of them, before either is
/// taken: `then` is required whatever the condition will say, and each IRI
/// argument given is held to its class.
pub fn branch_arguments(then_arg: ArgRead, else_arg: ArgRead) -> (r: Result<Branches, BranchRefusal>)
    ensures
        match r {
            Ok(b) => checked_branches(then_arg@, else_arg@) == Ok::<_, RefusalView>(
                branches_view(b),
            ),
            Err(e) => checked_branches(then_arg@, else_arg@) == Err::<
                (Seq<char>, Option<Seq<char>>),
                _,
            >(e@),
        },
{
    let then_iri = match then_arg {
        ArgRead::Absent => {
            proof {
                reveal_strlit("then");
            }
            return Err(BranchRefusal::Refused(FnError::MissingArgument("then".to_owned())));
        },
        ArgRead::Unreadable => {
            return Err(BranchRefusal::Unreadable(Side::Then));
        },
        ArgRead::Given(t) => match parse_iri(t, "then") {
            Err(e) => {
                return Err(BranchRefusal::Refused(e));
            },
            Ok(i) => i,
        },
    };
    match else_arg {
        ArgRead::Absent => Ok(Branches { then_iri, else_iri: None }),
        ArgRead::Unreadable => Err(BranchRefusal::Unreadable(Side::Else)),
        ArgRead::Given(e) => match parse_iri(e, "else") {
            Err(f) => Err(BranchRefusal::Refused(f)),
            Ok(i) => Ok(Branches { then_iri, else_iri: Some(i) }),
        },
    }
}

/// Which branch `conditional` takes once the condition reads as `verdict`.
#[derive(Debug)]
pub enum Branch {
    /// Source this IRI and return what it gives.
    Source(String),
    /// Return an empty text representation.
    Empty,
}

/// The step after the condition: a true condition sources `then`; a false one
/// sources `else`, or, with no `else`, returns an empty representation. Only
/// the branch named here is ever sourced.
pub fn branch_step(verdict: bool, branches: Branches) -> (r: Branch)
    ensures
        verdict ==> r == Branch::Source(branches.then_iri),
        !verdict ==> match branches.else_iri {
            Some(e) => r == Branch::Source(e),
            None => r == Branch::Empty,
        },
{
    if verdict {
        Branch::Source(branches.then_iri)
    } else {
        match branches.else_iri {
            Some(e) => Branch::Source(e),
            None => Branch::Empty,
        }
    }
}

} // verus!

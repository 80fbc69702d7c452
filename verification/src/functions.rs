use vstd::prelude::*;

use crate::chars::{push_char, push_str, string_from, chars_of};
use crate::error::{FnError, Failure, outcome};
use crate::text::{
    join_strings, join_with, lemma_join_avoids, lemma_join_split, lemma_split_join,
    lemma_split_on_pieces, lemma_trim_avoids, split_on, split_ranges, trim, trim_range,
};

verus! {

/// What `str::to_uppercase` returns for `s`: its Unicode upper-case mapping.
pub uninterp spec fn upper_case(s: Seq<char>) -> Seq<char>;

/// `str::to_uppercase`: the upper-case equivalent of `s`, by Unicode's mapping.
#[verifier::external_body]
fn uppercase(s: &str) -> (u: String)
    ensures
        u@ == upper_case(s@),
{
    s.to_uppercase()
}

/// The body `toUpper` answers for its `in` argument.
pub fn to_upper_text(input: &str) -> (out: String)
    ensures
        out@ == upper_case(input@),
{
    uppercase(input)
}

/// What `reverseList` answers: the newline-separated items of `s`, last first.
pub open spec fn reversed_list(s: Seq<char>) -> Seq<char> {
    join_with(split_on(s, '\n').reverse(), '\n')
}

/// The body `reverseList` answers for its `in` argument.
pub fn reverse_list_text(input: &str) -> (out: String)
    ensures
        out@ == reversed_list(input@),
{
    let v = chars_of(input);
    let ranges = split_ranges(&v, 0, v.len(), '\n');
    assert(v@.subrange(0, v@.len() as int) =~= input@);
    let ghost pieces = split_on(input@, '\n');
    let mut items: Vec<String> = Vec::new();
    let mut k = ranges.len();
    while k > 0
        invariant
            k <= ranges@.len() == pieces.len(),
            pieces == split_on(input@, '\n'),
            forall|j: int|
                0 <= j < ranges@.len() ==> {
                    &&& (#[trigger] ranges@[j]).0 <= ranges@[j].1 <= v@.len()
                    &&& v@.subrange(ranges@[j].0 as int, ranges@[j].1 as int) == pieces[j]
                },
            items@.map_values(|p: String| p@) == pieces.reverse().take(
                (ranges@.len() - k) as int,
            ),
        decreases k,
    {
        k = k - 1;
        let (a, b) = ranges[k];
        let item = string_from(&v, a, b);
        let ghost before = items@.map_values(|p: String| p@);
        items.push(item);
        assert(items@.map_values(|p: String| p@) =~= before.push(pieces[k as int]));
        assert(pieces.reverse().take((ranges@.len() - k) as int) =~= pieces.reverse().take(
            (ranges@.len() - k - 1) as int,
        ).push(pieces[k as int]));
    }
    assert(pieces.reverse().take(ranges@.len() as int) =~= pieces.reverse());
    join_strings(&items, '\n')
}

/// What `split` answers: the comma-separated fields of `s`, trimmed, one per line.
pub open spec fn split_list(s: Seq<char>) -> Seq<char> {
    join_with(split_on(s, ',').map_values(|p: Seq<char>| trim(p)), '\n')
}

/// The body `split` answers for its `in` argument.
pub fn split_text(input: &str) -> (out: String)
    ensures
        out@ == split_list(input@),
{
    let v = chars_of(input);
    let ranges = split_ranges(&v, 0, v.len(), ',');
    assert(v@.subrange(0, v@.len() as int) =~= input@);
    let ghost pieces = split_on(input@, ',');
    let ghost fields = pieces.map_values(|p: Seq<char>| trim(p));
    let mut items: Vec<String> = Vec::new();
    let mut k: usize = 0;
    while k < ranges.len()
        invariant
            k <= ranges@.len() == pieces.len(),
            pieces == split_on(input@, ','),
            fields == pieces.map_values(|p: Seq<char>| trim(p)),
            forall|j: int|
                0 <= j < ranges@.len() ==> {
                    &&& (#[trigger] ranges@[j]).0 <= ranges@[j].1 <= v@.len()
                    &&& v@.subrange(ranges@[j].0 as int, ranges@[j].1 as int) == pieces[j]
                },
            items@.map_values(|p: String| p@) == fields.take(k as int),
        decreases ranges@.len() - k,
    {
        let (a, b) = ranges[k];
        let (c, d) = trim_range(&v, a, b);
        let item = string_from(&v, c, d);
        let ghost before = items@.map_values(|p: String| p@);
        items.push(item);
        assert(items@.map_values(|p: String| p@) =~= before.push(fields[k as int]));
        assert(fields.take(k + 1) =~= fields.take(k as int).push(fields[k as int]));
        k = k + 1;
    }
    assert(fields.take(ranges@.len() as int) =~= fields);
    join_strings(&items, '\n')
}

/// `reverseList` is its own inverse: reversing the items of a newline list twice
/// gives back the list, byte for byte.
pub proof fn reverse_list_twice_is_identity(s: Seq<char>)
    ensures
        reversed_list(reversed_list(s)) == s,
{
    let p = split_on(s, '\n');
    lemma_split_on_pieces(s, '\n');
    assert forall|k: int| 0 <= k < p.reverse().len() implies !(#[trigger] p.reverse()[k]).contains(
        '\n',
    ) by {
        assert(p.reverse()[k] == p[p.len() - 1 - k]);
    }
    lemma_split_join(p.reverse(), '\n');
    assert(p.reverse().reverse() =~= p);
    lemma_join_split(s, '\n');
}

/// `split` makes a list `reverseList` can read: whenever no trimmed field holds
/// a line break, the lines of the output are exactly the input's
/// comma-separated fields, each trimmed, in order — whatever else the input
/// holds, line breaks between fields included.
pub proof fn split_gives_one_line_per_field(s: Seq<char>)
    requires
        forall|k: int|
            0 <= k < split_on(s, ',').len() ==> !trim(#[trigger] split_on(s, ',')[k]).contains('\n'),
    ensures
        split_on(split_list(s), '\n') == split_on(s, ',').map_values(|p: Seq<char>| trim(p)),
{
    let fields = split_on(s, ',').map_values(|p: Seq<char>| trim(p));
    lemma_split_on_pieces(s, ',');
    assert forall|k: int| 0 <= k < fields.len() implies !(#[trigger] fields[k]).contains('\n') by {
        assert(fields[k] == trim(split_on(s, ',')[k]));
    }
    lemma_split_join(fields, '\n');
}

/// No comma survives `split`: every comma of the input separates two fields,
/// and the fields are joined by line breaks.
pub proof fn split_leaves_no_comma(s: Seq<char>)
    ensures
        !split_list(s).contains(','),
{
    let pieces = split_on(s, ',');
    let fields = pieces.map_values(|p: Seq<char>| trim(p));
    lemma_split_on_pieces(s, ',');
    assert forall|k: int| 0 <= k < fields.len() implies !(#[trigger] fields[k]).contains(',') by {
        lemma_trim_avoids(pieces[k], ',');
    }
    lemma_join_avoids(fields, '\n', ',');
}

/// `reverseList` reverses the lines: the output has as many lines as the
/// input, and its `k`-th line is the input's `(n - 1 - k)`-th.
pub proof fn reverse_list_mirrors_lines(s: Seq<char>)
    ensures
        split_on(reversed_list(s), '\n').len() == split_on(s, '\n').len(),
        forall|k: int|
            0 <= k < split_on(s, '\n').len() ==> #[trigger] split_on(reversed_list(s), '\n')[k]
                == split_on(s, '\n')[split_on(s, '\n').len() - 1 - k],
{
    let p = split_on(s, '\n');
    lemma_split_on_pieces(s, '\n');
    assert forall|k: int| 0 <= k < p.reverse().len() implies !(#[trigger] p.reverse()[k]).contains(
        '\n',
    ) by {
        assert(p.reverse()[k] == p[p.len() - 1 - k]);
    }
    lemma_split_join(p.reverse(), '\n');
}

/// The body `wrap` answers for its `text` argument: the text in square brackets.
pub fn wrap_text(text: &str) -> (out: String)
    ensures
        out@ == seq!['['] + text@ + seq![']'],
{
    let mut out = String::new();
    push_char(&mut out, '[');
    push_str(&mut out, text);
    push_char(&mut out, ']');
    assert(out@ =~= seq!['['] + text@ + seq![']']);
    out
}

/// The body `greet` answers: `greeting`, a comma and a space, then `name`.
pub fn greet_text(greeting: &str, name: &str) -> (out: String)
    ensures
        out@ == greeting@ + seq![',', ' '] + name@,
{
    let mut out = String::new();
    push_str(&mut out, greeting);
    push_char(&mut out, ',');
    push_char(&mut out, ' ');
    push_str(&mut out, name);
    assert(out@ =~= greeting@ + seq![',', ' '] + name@);
    out
}

/// The body `echo` answers for the `message` the resolving grammar captured,
/// or `MissingArgument("message")` when it captured none.
pub fn echo_text(message: Option<&str>) -> (out: Result<String, FnError>)
    ensures
        outcome(out) == match message {
            Some(m) => Ok::<Seq<char>, Failure>(m@),
            None => Err(Failure::MissingArgument(seq!['m', 'e', 's', 's', 'a', 'g', 'e'])),
        },
{
    match message {
        Some(m) => Ok(m.to_owned()),
        None => {
            let mut name = String::new();
            push_str(&mut name, "message");
            proof {
                reveal_strlit("message");
            }
            assert(name@ =~= seq!['m', 'e', 's', 's', 'a', 'g', 'e']);
            Err(FnError::MissingArgument(name))
        },
    }
}

} // verus!

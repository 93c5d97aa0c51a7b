//! Variable substitution over one line of input.
//!
//! The line is taken field by field, a field being a run of characters
//! between white space.  A field that holds a `$` is handed to the `subst`
//! crate together with the shell's variables; what comes back takes the
//! field's place.  A field whose substitution fails is left out, and the
//! failure is kept for the caller to report.  The white space of the line
//! stays as it is.

use crate::environment::{bindings, distinct_names, Environment};
use crate::text::{chars_of, is_space, is_whitespace, lemma_span, scan, span, string_of, CharClass};
use std::collections::BTreeMap;
use vstd::prelude::*;

verus! {

/// What `subst::substitute` makes of `source` with the variables
/// `variables`: the text with every variable replaced, or, where the text
/// is malformed or names a variable that is not bound and has no default,
/// the error written out as a sentence.
pub uninterp spec fn substituted(
    source: Seq<char>,
    variables: Map<Seq<char>, Seq<char>>,
) -> Result<Seq<char>, Seq<char>>;

/// What the result of a substitution stands for.
pub open spec fn outcome_view(result: Result<String, String>) -> Result<Seq<char>, Seq<char>> {
    match result {
        Ok(text) => Ok(text@),
        Err(reason) => Err(reason@),
    }
}

/// The number of opening braces that a field may hold and still be handed
/// to the substitution.
pub const NESTING_LIMIT: usize = 64;

/// What is reported of a field with more opening braces than that.
pub const TOO_DEEP: &'static str = "Too many opening braces";

/// The number of opening braces in `field`.
pub open spec fn opens(field: Seq<char>) -> nat
    decreases field.len(),
{
    if field.len() == 0 {
        0
    } else if field.last() == '{' {
        opens(field.drop_last()) + 1
    } else {
        opens(field.drop_last())
    }
}

/// Calls `subst::substitute` on `source`, with a map made of `variables`,
/// and writes an error out with its `Display`.
///
/// Trusted: the result is the one that `substituted` names.  The call
/// reads nothing but its two arguments, so equal arguments give equal
/// results, and it panics on none.  Its parser calls itself once for each
/// default value that stands inside another, and each of those takes an
/// opening brace; with no more of them than `NESTING_LIMIT` the calls stay
/// shallow.
#[verifier::external_body]
fn substitute(source: &str, variables: &Vec<(String, String)>) -> (result: Result<String, String>)
    requires
        distinct_names(variables@),
        opens(source@) <= NESTING_LIMIT,
    ensures
        outcome_view(result) == substituted(source@, bindings(variables@)),
{
    let map: BTreeMap<&str, &str> = variables.iter().map(
        |entry| (entry.0.as_str(), entry.1.as_str()),
    ).collect();
    match subst::substitute(source, &map) {
        Ok(text) => Ok(text),
        Err(error) => Err(format!("{}", error)),
    }
}

/// Whether `field` asks for substitution: whether it holds a `$`.
pub open spec fn has_marker(field: Seq<char>) -> bool {
    field.contains('$')
}

/// What takes the place of `field`, or why nothing does.
///
/// A field without `$` stays as it is.  A field with a `$` and no more
/// opening braces than `NESTING_LIMIT` is what the substitution makes of
/// it.  A field with more of them is not handed on and fails.
pub open spec fn replacement(field: Seq<char>, variables: Map<Seq<char>, Seq<char>>) -> Result<
    Seq<char>,
    Seq<char>,
> {
    if !has_marker(field) {
        Ok(field)
    } else if opens(field) > NESTING_LIMIT {
        Err(TOO_DEEP@)
    } else {
        substituted(field, variables)
    }
}

/// The line `line` after substitution: its white space as it stands, and in
/// the place of each field its replacement, or nothing where it has none.
pub open spec fn expanded(line: Seq<char>, variables: Map<Seq<char>, Seq<char>>) -> Seq<char>
    decreases line.len(),
{
    if line.len() == 0 {
        Seq::empty()
    } else if is_space(line[0]) {
        seq![line[0]] + expanded(line.skip(1), variables)
    } else {
        let n = span(line, CharClass::Visible);
        proof {
            lemma_span(line, CharClass::Visible);
        }
        match replacement(line.take(n as int), variables) {
            Ok(text) => text + expanded(line.skip(n as int), variables),
            Err(_) => expanded(line.skip(n as int), variables),
        }
    }
}

/// What a `Failure` stands for.
pub struct FailureView {
    pub field: Seq<char>,
    pub reason: Seq<char>,
}

/// The fields of `line` whose substitution fails, each with the reason, in
/// order.
pub open spec fn failed(line: Seq<char>, variables: Map<Seq<char>, Seq<char>>) -> Seq<FailureView>
    decreases line.len(),
{
    if line.len() == 0 {
        Seq::empty()
    } else if is_space(line[0]) {
        failed(line.skip(1), variables)
    } else {
        let n = span(line, CharClass::Visible);
        proof {
            lemma_span(line, CharClass::Visible);
        }
        match replacement(line.take(n as int), variables) {
            Ok(_) => failed(line.skip(n as int), variables),
            Err(reason) => seq![FailureView { field: line.take(n as int), reason }] + failed(
                line.skip(n as int),
                variables,
            ),
        }
    }
}

/// A field that could not be expanded.
#[derive(Clone, Debug, PartialEq, Eq)]
pub struct Failure {
    /// The field as it stood in the line.
    pub field: String,
    /// Why it could not be expanded, as a sentence for the error stream.
    pub reason: String,
}

impl View for Failure {
    type V = FailureView;

    open spec fn view(&self) -> FailureView {
        FailureView { field: self.field@, reason: self.reason@ }
    }
}

/// What the failures of `v` stand for.
pub open spec fn failure_views(v: Seq<Failure>) -> Seq<FailureView> {
    Seq::new(v.len(), |i: int| v[i]@)
}

/// A line after substitution.
#[derive(Clone, Debug, PartialEq, Eq)]
pub struct Expansion {
    /// The line, with every field that could be expanded.
    pub text: String,
    /// The fields that could not, in order.
    pub failures: Vec<Failure>,
}

/// Whether `field` asks for substitution.
pub fn contains_marker(field: &str) -> (found: bool)
    ensures
        found == has_marker(field@),
{
    let chars = chars_of(field);
    let mut i: usize = 0;
    while i < chars.len()
        invariant
            i <= chars.len(),
            chars@ == field@,
            forall|j: int| 0 <= j < i ==> chars@[j] != '$',
        decreases chars.len() - i,
    {
        if chars[i] == '$' {
            return true;
        }
        i = i + 1;
    }
    false
}

/// The number of opening braces in `field`.
pub fn count_opens(field: &str) -> (count: usize)
    ensures
        count == opens(field@),
{
    let chars = chars_of(field);
    let mut count: usize = 0;
    let mut i: usize = 0;
    while i < chars.len()
        invariant
            i <= chars.len(),
            chars@ == field@,
            count <= i,
            count == opens(chars@.take(i as int)),
        decreases chars.len() - i,
    {
        assert(chars@.take(i + 1).drop_last() == chars@.take(i as int));
        if chars[i] == '{' {
            count = count + 1;
        }
        i = i + 1;
    }
    assert(chars@.take(chars.len() as int) == chars@);
    count
}

/// What takes the place of `field` with the variables `variables`, or why
/// nothing does.
pub fn expand_field(field: &str, env: &Environment) -> (outcome: Result<String, String>)
    ensures
        outcome_view(outcome) == replacement(field@, env@),
{
    if !contains_marker(field) {
        Ok(field.to_owned())
    } else if count_opens(field) > NESTING_LIMIT {
        Err(TOO_DEEP.to_owned())
    } else {
        substitute(field, env.entries())
    }
}

/// Puts what came of one field in its place: a replacement goes to the end
/// of `text`, a failure goes to the end of `failures`.
pub fn absorb(text: &mut String, failures: &mut Vec<Failure>, outcome: Result<String, Failure>)
    ensures
        final(text)@ == match outcome {
            Ok(replacement) => old(text)@ + replacement@,
            Err(_) => old(text)@,
        },
        final(failures)@ == match outcome {
            Ok(_) => old(failures)@,
            Err(failure) => old(failures)@.push(failure),
        },
{
    match outcome {
        Ok(replacement) => {
            text.append(replacement.as_str());
        },
        Err(failure) => {
            failures.push(failure);
        },
    }
}

/// Expands the variables in `line`.
///
/// The fields of `line` are its runs of characters between white space.
/// A field with a `$` is replaced by what `subst` makes of it, and left out
/// where that fails; everything else stays as it is.
pub fn expand_line(line: &str, env: &Environment) -> (expansion: Expansion)
    ensures
        expansion.text@ == expanded(line@, env@),
        failure_views(expansion.failures@) == failed(line@, env@),
{
    let chars = chars_of(line);
    let n = chars.len();
    let mut text = String::new();
    let mut failures: Vec<Failure> = Vec::new();
    let mut i: usize = 0;
    assert(chars@.skip(0) == chars@);
    while i < n
        invariant
            n == chars.len(),
            chars@ == line@,
            i <= n,
            expanded(chars@, env@) == text@ + expanded(chars@.skip(i as int), env@),
            failed(chars@, env@) == failure_views(failures@) + failed(chars@.skip(i as int), env@),
        decreases n - i,
    {
        let ghost rest = chars@.skip(i as int);
        let ghost shown = failure_views(failures@);
        let ghost written = text@;
        assert(rest == chars@.subrange(i as int, n as int));
        if is_whitespace(chars[i]) {
            proof {
                assert(rest.skip(1) == chars@.skip(i + 1));
                assert(written.push(chars@[i as int]) + expanded(rest.skip(1), env@) == written
                    + (seq![rest[0]] + expanded(rest.skip(1), env@)));
            }
            text.push(chars[i]);
            i = i + 1;
        } else {
            let end = scan(&chars, i, n, CharClass::Visible);
            let field = string_of(&chars, i, end);
            proof {
                assert(field@ == rest.take(end - i));
                assert(rest.skip(end - i) == chars@.skip(end as int));
            }
            let outcome = match expand_field(field.as_str(), env) {
                Ok(replacement) => Ok(replacement),
                Err(reason) => Err(Failure { field, reason }),
            };
            let ghost result = outcome;
            absorb(&mut text, &mut failures, outcome);
            proof {
                let after = rest.skip(end - i);
                match result {
                    Ok(replacement) => {
                        assert(written + replacement@ + expanded(after, env@) == written + (
                        replacement@ + expanded(after, env@)));
                    },
                    Err(failure) => {
                        assert(failure_views(failures@) == shown.push(failure@));
                        assert(shown.push(failure@) + failed(after, env@) == shown + (seq![
                            failure@,
                        ] + failed(after, env@)));
                    },
                }
            }
            i = end;
        }
    }
    assert(chars@.skip(n as int).len() == 0);
    assert(text@ + Seq::<char>::empty() == text@);
    assert(failure_views(failures@) + Seq::<FailureView>::empty() == failure_views(failures@));
    Expansion { text, failures }
}

} // verus!

//! The startup file: from its text to the variables it sets.

use crate::environment::Environment;
use crate::lexer::{
    is_name, is_noise, is_self_contained, lemma_lex_statement, lemma_noise_is_dropped, lex,
    significant, statement, tokenize,
};
use crate::parser::{
    assigned, assignments, lemma_assigned_twice, lemma_garbage_is_skipped,
    lemma_last_assignment_wins, lemma_statement_in_context, lemma_statement_is_applied, Parser,
};
use crate::text::is_space;
use crate::token::{statement_tokens, TokenView};
use vstd::prelude::*;

verus! {

/// Why the startup file could not be used.
#[derive(Clone, Copy, Debug, PartialEq, Eq, Structural)]
pub enum ConfigError {
    /// The file could not be read.
    NotFound,
}

impl ConfigError {
    /// The error as a sentence.
    pub fn message(&self) -> (text: String)
        ensures
            text@ == "Error: config file not found"@,
    {
        "Error: config file not found".to_owned()
    }
}

/// Where the startup file is looked for when none is named.
pub const DEFAULT_CONFIG: &'static str = ".clararc";

/// What is to be done about the startup file.
#[derive(Clone, Copy, Debug, PartialEq, Eq)]
pub enum Startup<'a> {
    /// Read the file at `path`.
    Load { path: &'a str },
    /// Make an empty file at `path` and start without variables.
    Create { path: &'a str },
}

/// Decides what is to be done about the startup file.
///
/// A file that is named is read, whether it is there or not.  Where none is
/// named the default file is read if it is there, and made if it is not.
pub fn locate<'a>(named: Option<&'a str>, default_present: bool) -> (startup: Startup<'a>)
    ensures
        named matches Some(path) ==> startup == (Startup::Load { path }),
        named is None && default_present ==> startup == (Startup::Load { path: DEFAULT_CONFIG }),
        named is None && !default_present ==> startup == (Startup::Create {
            path: DEFAULT_CONFIG,
        }),
{
    match named {
        Some(path) => Startup::Load { path },
        None => if default_present {
            Startup::Load { path: DEFAULT_CONFIG }
        } else {
            Startup::Create { path: DEFAULT_CONFIG }
        },
    }
}

/// The assignments that the text of a startup file holds, in order.
pub open spec fn config_assignments(text: Seq<char>) -> Seq<(Seq<char>, Seq<char>)> {
    assignments(significant(lex(text)))
}

/// The variables after a startup file with the text `text` has been read,
/// starting from `variables`.
pub open spec fn configured(variables: Map<Seq<char>, Seq<char>>, text: Seq<char>) -> Map<
    Seq<char>,
    Seq<char>,
> {
    assigned(variables, config_assignments(text))
}

/// Whether a name and a value can be written as a statement: the name is a
/// name other than the keyword, and the value holds no double quote.
pub open spec fn is_writable(assignment: (Seq<char>, Seq<char>)) -> bool {
    &&& is_name(assignment.0)
    &&& assignment.0 != "export"@
    &&& !assignment.1.contains('"')
}

/// The text of a startup file that makes the assignments of `list`: one
/// statement on each line.
pub open spec fn render(list: Seq<(Seq<char>, Seq<char>)>) -> Seq<char>
    decreases list.len(),
{
    if list.len() == 0 {
        Seq::empty()
    } else {
        statement(list[0].0, list[0].1) + seq!['\n'] + render(list.skip(1))
    }
}

/// An empty startup file changes no variable.
pub proof fn lemma_empty_config(variables: Map<Seq<char>, Seq<char>>)
    ensures
        config_assignments(Seq::empty()).len() == 0,
        configured(variables, Seq::empty()) == variables,
{
    reveal(Seq::filter);
}

/// White space in front of a text changes nothing of what it assigns.
pub proof fn lemma_config_space(c: char, rest: Seq<char>)
    requires
        is_space(c),
    ensures
        config_assignments(seq![c] + rest) == config_assignments(rest),
{
    assert((seq![c] + rest).skip(1) == rest);
}

/// Noise in front of a text changes nothing of what it assigns.
pub proof fn lemma_config_noise(noise: Seq<char>, rest: Seq<char>)
    requires
        forall|i: int| 0 <= i < noise.len() ==> is_noise(#[trigger] noise[i]),
    ensures
        config_assignments(noise + rest) == config_assignments(rest),
{
    lemma_noise_is_dropped(noise, rest);
}

/// A statement in front of a text is the first assignment, and the text
/// behind it is read as if it stood alone.
pub proof fn lemma_config_statement(name: Seq<char>, value: Seq<char>, rest: Seq<char>)
    requires
        is_writable((name, value)),
    ensures
        config_assignments(statement(name, value) + rest) == seq![(name, value)]
            + config_assignments(rest),
{
    let four = statement_tokens(name, value);
    let keep = |token: TokenView| !(token is Error);
    lemma_lex_statement(name, value, rest);
    Seq::filter_distributes_over_add(four, lex(rest), keep);
    lemma_statement_tokens_count(name, value);
    lemma_statement_is_applied(name, value, significant(lex(rest)));
}

/// None of the tokens of a statement is an error: all four count.
proof fn lemma_statement_tokens_count(name: Seq<char>, value: Seq<char>)
    ensures
        significant(statement_tokens(name, value)) == statement_tokens(name, value),
{
    let four = statement_tokens(name, value);
    reveal_with_fuel(Seq::filter, 5);
    assert(four.drop_last() == seq![
        TokenView::Export,
        TokenView::Identifier(name),
        TokenView::Assign,
    ]);
    assert(four.drop_last().drop_last() == seq![TokenView::Export, TokenView::Identifier(name)]);
    assert(four.drop_last().drop_last().drop_last() == seq![TokenView::Export]);
    assert(four.drop_last().drop_last().drop_last().drop_last() == Seq::<TokenView>::empty());
}

/// A statement is applied wherever it stands in the file: behind any
/// self-contained text and in front of any text at all, its assignment
/// takes its place between theirs.
pub proof fn lemma_config_in_context(
    before: Seq<char>,
    name: Seq<char>,
    value: Seq<char>,
    after: Seq<char>,
)
    requires
        is_self_contained(before),
        is_writable((name, value)),
    ensures
        config_assignments(before + statement(name, value) + after) == config_assignments(before)
            + seq![(name, value)] + config_assignments(after),
{
    let four = statement_tokens(name, value);
    let keep = |token: TokenView| !(token is Error);
    let text = before + statement(name, value) + after;
    assert(text == before + (statement(name, value) + after));
    lemma_lex_statement(name, value, after);
    assert(lex(text) == lex(before) + (four + lex(after)));
    Seq::filter_distributes_over_add(lex(before), four + lex(after), keep);
    Seq::filter_distributes_over_add(four, lex(after), keep);
    lemma_statement_tokens_count(name, value);
    assert(significant(lex(before)) + (four + significant(lex(after))) == significant(lex(before))
        + four + significant(lex(after)));
    lemma_statement_in_context(significant(lex(before)), name, value, significant(lex(after)));
}

/// Text that holds no keyword is passed over: behind a self-contained text
/// whose tokens hold no `export`, a text is read as if it stood alone.
pub proof fn lemma_config_garbage(garbage: Seq<char>, rest: Seq<char>)
    requires
        is_self_contained(garbage),
        forall|i: int|
            0 <= i < significant(lex(garbage)).len() ==> !(#[trigger] significant(
                lex(garbage),
            )[i] is Export),
    ensures
        config_assignments(garbage + rest) == config_assignments(rest),
{
    let keep = |token: TokenView| !(token is Error);
    assert(lex(garbage + rest) == lex(garbage) + lex(rest));
    Seq::filter_distributes_over_add(lex(garbage), lex(rest), keep);
    lemma_garbage_is_skipped(significant(lex(garbage)), significant(lex(rest)));
}

/// A startup file written from a list of assignments is read back as that
/// list: every name with its value, without the quotes, in the same order.
pub proof fn lemma_config_round_trip(list: Seq<(Seq<char>, Seq<char>)>)
    requires
        forall|i: int| 0 <= i < list.len() ==> is_writable(#[trigger] list[i]),
    ensures
        config_assignments(render(list)) == list,
    decreases list.len(),
{
    if list.len() == 0 {
        lemma_empty_config(Map::empty());
    } else {
        let tail = list.skip(1);
        assert forall|i: int| 0 <= i < tail.len() implies is_writable(#[trigger] tail[i]) by {
            assert(tail[i] == list[i + 1]);
        }
        lemma_config_round_trip(tail);
        lemma_config_space('\n', render(tail));
        assert(is_writable(list[0]));
        lemma_config_statement(list[0].0, list[0].1, seq!['\n'] + render(tail));
        assert(render(list) == statement(list[0].0, list[0].1) + (seq!['\n'] + render(tail)));
        assert(seq![(list[0].0, list[0].1)] + tail == list);
    }
}

/// After a startup file written from `list` has been read, each name holds
/// the value of its last statement.
pub proof fn lemma_statements_are_bound(
    variables: Map<Seq<char>, Seq<char>>,
    list: Seq<(Seq<char>, Seq<char>)>,
    at: int,
)
    requires
        forall|i: int| 0 <= i < list.len() ==> is_writable(#[trigger] list[i]),
        0 <= at < list.len(),
        forall|j: int| at < j < list.len() ==> (#[trigger] list[j]).0 != list[at].0,
    ensures
        configured(variables, render(list)).contains_key(list[at].0),
        configured(variables, render(list))[list[at].0] == list[at].1,
{
    lemma_config_round_trip(list);
    lemma_last_assignment_wins(variables, list, at);
}

/// Reading the same startup file a second time changes nothing.
pub proof fn lemma_config_twice(variables: Map<Seq<char>, Seq<char>>, text: Seq<char>)
    ensures
        configured(configured(variables, text), text) == configured(variables, text),
{
    lemma_assigned_twice(variables, config_assignments(text));
}

/// Reads the text of a startup file and binds its variables in `env`.
/// Returns the number of assignments made.
pub fn load(text: &str, env: &mut Environment) -> (applied: usize)
    ensures
        final(env)@ == configured(old(env)@, text@),
        applied == config_assignments(text@).len(),
{
    let mut parser = Parser::new(tokenize(text));
    parser.run(env)
}

/// Sets the shell up from its startup file.
///
/// `contents` is the text of the file, or nothing where the file could not
/// be read.  Without a text the setup fails and `env` stays as it was; with
/// one it succeeds, whatever the text holds.
pub fn setup(contents: Option<&str>, env: &mut Environment) -> (result: Result<(), ConfigError>)
    ensures
        result is Ok <==> contents is Some,
        result matches Err(error) ==> error == ConfigError::NotFound,
        final(env)@ == match contents {
            Some(text) => configured(old(env)@, text@),
            None => old(env)@,
        },
{
    match contents {
        Some(text) => {
            load(text, env);
            Ok(())
        },
        None => Err(ConfigError::NotFound),
    }
}

} // verus!

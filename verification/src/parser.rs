//! The parser of the startup file: from tokens to assignments.
//!
//! A statement is four tokens in a row: `export`, an identifier, `=` and a
//! string.  The parser walks the tokens once.  Where a statement begins it
//! binds the variable and steps over the four tokens; anywhere else it
//! steps over one token and tries again, so that what is no statement is
//! passed over and never stops the walk.

use crate::environment::Environment;
use crate::token::{statement_tokens, token_views, Token, TokenView};
use vstd::prelude::*;

verus! {

/// Whether `tokens` begin with a statement.
pub open spec fn is_statement(tokens: Seq<TokenView>) -> bool {
    &&& tokens.len() >= 4
    &&& tokens[0] is Export
    &&& tokens[1] is Identifier
    &&& tokens[2] is Assign
    &&& tokens[3] is StringLiteral
}

/// The assignments that `tokens` hold, each as a name and a value, in the
/// order of the tokens.
pub open spec fn assignments(tokens: Seq<TokenView>) -> Seq<(Seq<char>, Seq<char>)>
    decreases tokens.len(),
{
    if tokens.len() == 0 {
        Seq::empty()
    } else if is_statement(tokens) {
        seq![(tokens[1]->Identifier_0, tokens[3]->StringLiteral_0)] + assignments(tokens.skip(4))
    } else {
        assignments(tokens.skip(1))
    }
}

/// The variables after each of `list` has been bound in turn, starting from
/// `variables`.
pub open spec fn assigned(
    variables: Map<Seq<char>, Seq<char>>,
    list: Seq<(Seq<char>, Seq<char>)>,
) -> Map<Seq<char>, Seq<char>>
    decreases list.len(),
{
    if list.len() == 0 {
        variables
    } else {
        assigned(variables.insert(list[0].0, list[0].1), list.skip(1))
    }
}

/// The value that the last assignment to `name` in `list` gives it, if
/// there is one.
pub open spec fn final_value(list: Seq<(Seq<char>, Seq<char>)>, name: Seq<char>) -> Option<
    Seq<char>,
>
    decreases list.len(),
{
    if list.len() == 0 {
        None
    } else {
        match final_value(list.skip(1), name) {
            Some(value) => Some(value),
            None => if list[0].0 == name {
                Some(list[0].1)
            } else {
                None
            },
        }
    }
}

/// A statement at the head of the tokens is applied, and the walk goes on
/// behind it.
pub proof fn lemma_statement_is_applied(
    name: Seq<char>,
    value: Seq<char>,
    rest: Seq<TokenView>,
)
    ensures
        assignments(statement_tokens(name, value) + rest) == seq![(name, value)] + assignments(
            rest,
        ),
{
    let tokens = statement_tokens(name, value) + rest;
    assert(is_statement(tokens));
    assert(tokens.skip(4) == rest);
}

/// A statement is applied wherever it stands: whatever tokens come before
/// it and after it, they are read as they would be without it, and the
/// statement's assignment takes its place between theirs.
pub proof fn lemma_statement_in_context(
    before: Seq<TokenView>,
    name: Seq<char>,
    value: Seq<char>,
    after: Seq<TokenView>,
)
    ensures
        assignments(before + statement_tokens(name, value) + after) == assignments(before) + seq![
            (name, value),
        ] + assignments(after),
    decreases before.len(),
{
    let four = statement_tokens(name, value);
    let all = before + four + after;
    if before.len() == 0 {
        assert(all == four + after);
        lemma_statement_is_applied(name, value, after);
        assert(Seq::<(Seq<char>, Seq<char>)>::empty() + seq![(name, value)] == seq![(name, value)]);
    } else {
        assert(all[0] == before[0]);
        if is_statement(all) {
            if before.len() < 4 {
                // The keyword of the statement would stand where the
                // pattern asks for another token.
                assert(all[before.len() as int] == four[0]);
                assert(false);
            }
            assert(all[1] == before[1] && all[2] == before[2] && all[3] == before[3]);
            assert(is_statement(before));
            assert(all.skip(4) == before.skip(4) + four + after);
            lemma_statement_in_context(before.skip(4), name, value, after);
            let first = seq![(before[1]->Identifier_0, before[3]->StringLiteral_0)];
            assert(first + (assignments(before.skip(4)) + seq![(name, value)] + assignments(after))
                == first + assignments(before.skip(4)) + seq![(name, value)] + assignments(after));
        } else {
            if before.len() >= 4 {
                assert(all[1] == before[1] && all[2] == before[2] && all[3] == before[3]);
            }
            assert(!is_statement(before));
            assert(all.skip(1) == before.skip(1) + four + after);
            lemma_statement_in_context(before.skip(1), name, value, after);
        }
    }
}

/// Tokens without the keyword hold no statement and are passed over: what
/// follows them is read as if they were not there.
pub proof fn lemma_garbage_is_skipped(garbage: Seq<TokenView>, rest: Seq<TokenView>)
    requires
        forall|i: int| 0 <= i < garbage.len() ==> !(#[trigger] garbage[i] is Export),
    ensures
        assignments(garbage + rest) == assignments(rest),
    decreases garbage.len(),
{
    if garbage.len() == 0 {
        assert(garbage + rest == rest);
    } else {
        let tokens = garbage + rest;
        assert(tokens[0] == garbage[0]);
        assert(!is_statement(tokens));
        assert(tokens.skip(1) == garbage.skip(1) + rest);
        assert forall|i: int| 0 <= i < garbage.skip(1).len() implies !(
        #[trigger] garbage.skip(1)[i] is Export) by {
            assert(garbage.skip(1)[i] == garbage[i + 1]);
        }
        lemma_garbage_is_skipped(garbage.skip(1), rest);
    }
}

/// After the assignments of `list`, a name that `list` assigns holds the
/// value of its last assignment, and any other name is bound as it was
/// before.
pub proof fn lemma_assigned(
    variables: Map<Seq<char>, Seq<char>>,
    list: Seq<(Seq<char>, Seq<char>)>,
    name: Seq<char>,
)
    ensures
        assigned(variables, list).contains_key(name) <==> final_value(list, name) is Some
            || variables.contains_key(name),
        assigned(variables, list)[name] == match final_value(list, name) {
            Some(value) => value,
            None => variables[name],
        },
    decreases list.len(),
{
    if list.len() > 0 {
        lemma_assigned(variables.insert(list[0].0, list[0].1), list.skip(1), name);
    }
}

/// An assignment that no later one overrides decides the value of its
/// name.
pub proof fn lemma_last_assignment_wins(
    variables: Map<Seq<char>, Seq<char>>,
    list: Seq<(Seq<char>, Seq<char>)>,
    at: int,
)
    requires
        0 <= at < list.len(),
        forall|j: int| at < j < list.len() ==> (#[trigger] list[j]).0 != list[at].0,
    ensures
        final_value(list, list[at].0) == Some(list[at].1),
        assigned(variables, list).contains_key(list[at].0),
        assigned(variables, list)[list[at].0] == list[at].1,
    decreases list.len(),
{
    let tail = list.skip(1);
    if at == 0 {
        lemma_not_assigned(tail, list[0].0);
    } else {
        assert(tail[at - 1] == list[at]);
        assert forall|j: int| at - 1 < j < tail.len() implies (#[trigger] tail[j]).0 != tail[at
            - 1].0 by {
            assert(tail[j] == list[j + 1]);
        }
        lemma_last_assignment_wins(variables, tail, at - 1);
    }
    lemma_assigned(variables, list, list[at].0);
}

/// A name that no assignment of `list` names has no final value.
pub proof fn lemma_not_assigned(list: Seq<(Seq<char>, Seq<char>)>, name: Seq<char>)
    requires
        forall|j: int| 0 <= j < list.len() ==> (#[trigger] list[j]).0 != name,
    ensures
        final_value(list, name) is None,
    decreases list.len(),
{
    if list.len() > 0 {
        let tail = list.skip(1);
        assert forall|j: int| 0 <= j < tail.len() implies (#[trigger] tail[j]).0 != name by {
            assert(tail[j] == list[j + 1]);
        }
        lemma_not_assigned(tail, name);
        assert(list[0].0 != name);
    }
}

/// Making the same assignments a second time changes nothing.
pub proof fn lemma_assigned_twice(
    variables: Map<Seq<char>, Seq<char>>,
    list: Seq<(Seq<char>, Seq<char>)>,
)
    ensures
        assigned(assigned(variables, list), list) == assigned(variables, list),
{
    let once = assigned(variables, list);
    let twice = assigned(once, list);
    assert forall|name: Seq<char>| #[trigger]
        twice.dom().contains(name) == once.dom().contains(name) by {
        lemma_assigned(variables, list, name);
        lemma_assigned(once, list, name);
    }
    assert forall|name: Seq<char>| once.dom().contains(name) implies #[trigger] twice[name]
        == once[name] by {
        lemma_assigned(variables, list, name);
        lemma_assigned(once, list, name);
    }
    assert(twice =~= once);
}

/// A parser over one sequence of tokens.
pub struct Parser {
    tokens: Vec<Token>,
    position: usize,
}

impl Parser {
    #[verifier::type_invariant]
    spec fn well_formed(self) -> bool {
        self.position <= self.tokens.len()
    }

    /// The tokens that are still to be read.
    pub closed spec fn remaining(self) -> Seq<TokenView> {
        token_views(self.tokens@).skip(self.position as int)
    }

    /// A parser at the start of `tokens`.
    pub fn new(tokens: Vec<Token>) -> (parser: Parser)
        ensures
            parser.remaining() == token_views(tokens@),
    {
        assert(token_views(tokens@).skip(0) == token_views(tokens@));
        Parser { tokens, position: 0 }
    }

    /// The name and the value of the statement that begins at `at`, if one
    /// begins there.
    fn statement_at(&self, at: usize) -> (found: Option<(String, String)>)
        requires
            at <= self.tokens.len(),
        ensures
            found is Some <==> is_statement(token_views(self.tokens@).skip(at as int)),
            found matches Some(pair) ==> {
                &&& pair.0@ == token_views(self.tokens@)[at + 1]->Identifier_0
                &&& pair.1@ == token_views(self.tokens@)[at + 3]->StringLiteral_0
            },
    {
        if self.tokens.len() - at < 4 {
            return None;
        }
        match (
            &self.tokens[at],
            &self.tokens[at + 1],
            &self.tokens[at + 2],
            &self.tokens[at + 3],
        ) {
            (Token::Export, Token::Identifier(name), Token::Assign, Token::StringLiteral(value)) => {
                Some((name.clone(), value.clone()))
            },
            _ => None,
        }
    }

    /// Reads the tokens to their end and binds in `env` the variable of
    /// every statement met, in order.  Returns the number of statements.
    pub fn run(&mut self, env: &mut Environment) -> (applied: usize)
        ensures
            final(env)@ == assigned(old(env)@, assignments(old(self).remaining())),
            applied == assignments(old(self).remaining()).len(),
            final(self).remaining().len() == 0,
    {
        proof {
            use_type_invariant(&*self);
        }
        let n = self.tokens.len();
        let ghost all = token_views(self.tokens@);
        let ghost start = self.position as int;
        let ghost mut done: Seq<(Seq<char>, Seq<char>)> = Seq::empty();
        let mut at = self.position;
        let mut applied: usize = 0;
        assert(assignments(all.skip(start)) == done + assignments(all.skip(at as int)));
        while at < n
            invariant
                n == self.tokens.len(),
                all == token_views(self.tokens@),
                start <= at <= n,
                applied <= at,
                applied == done.len(),
                assignments(all.skip(start)) == done + assignments(all.skip(at as int)),
                assigned(old(env)@, assignments(all.skip(start))) == assigned(
                    env@,
                    assignments(all.skip(at as int)),
                ),
            decreases n - at,
        {
            let ghost rest = all.skip(at as int);
            match self.statement_at(at) {
                Some(pair) => {
                    proof {
                        let first = (pair.0@, pair.1@);
                        assert(rest[1] == all[at + 1] && rest[3] == all[at + 3]);
                        assert(rest.skip(4) == all.skip(at + 4));
                        assert((seq![first] + assignments(rest.skip(4))).skip(1) == assignments(
                            rest.skip(4),
                        ));
                        assert(done.push(first) + assignments(rest.skip(4)) == done + assignments(
                            rest,
                        ));
                        done = done.push(first);
                    }
                    env.set(pair.0, pair.1);
                    applied = applied + 1;
                    at = at + 4;
                },
                None => {
                    assert(rest.skip(1) == all.skip(at + 1));
                    at = at + 1;
                },
            }
        }
        self.position = n;
        assert(all.skip(n as int).len() == 0);
        assert(done + assignments(all.skip(n as int)) == done);
        applied
    }
}

} // verus!

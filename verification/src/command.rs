//! One stage of a pipeline, read as a program and its arguments.

use crate::text::{lemma_words_are_visible, texts, words, words_of};
use vstd::prelude::*;

verus! {

/// A program name and the arguments handed to it.
#[derive(Clone, Debug, PartialEq, Eq)]
pub struct Command {
    pub program: String,
    pub args: Vec<String>,
}

/// What a `Command` stands for.
pub struct CommandView {
    pub program: Seq<char>,
    pub args: Seq<Seq<char>>,
}

impl View for Command {
    type V = CommandView;

    open spec fn view(&self) -> CommandView {
        CommandView { program: self.program@, args: texts(self.args@) }
    }
}

/// What the words of a stage stand for: the first is the program, the others
/// its arguments.  A stage without words is no command.
pub open spec fn command_of(stage: Seq<char>) -> Option<CommandView> {
    let w = words(stage);
    if w.len() == 0 {
        None
    } else {
        Some(CommandView { program: w[0], args: w.skip(1) })
    }
}

/// The commands of the stages that hold at least one word, in order.
pub open spec fn commands_of(stages: Seq<Seq<char>>) -> Seq<CommandView> {
    stages.filter(|stage: Seq<char>| command_of(stage) is Some).map_values(
        |stage: Seq<char>| command_of(stage)->0,
    )
}

/// Every command read from a stage names a program: no stage is read as
/// a command without a name.
pub proof fn lemma_commands_have_programs(stages: Seq<Seq<char>>, i: int)
    requires
        0 <= i < commands_of(stages).len(),
    ensures
        commands_of(stages)[i].program.len() > 0,
{
    let keep = |stage: Seq<char>| command_of(stage) is Some;
    stages.lemma_filter_pred(keep, i);
    lemma_words_are_visible(stages.filter(keep)[i], 0);
}

/// What the commands of `v` stand for.
pub open spec fn command_views(v: Seq<Command>) -> Seq<CommandView> {
    Seq::new(v.len(), |i: int| v[i]@)
}

impl Command {
    /// Reads a stage as a command: its words, split at white space.
    pub fn parse(stage: &str) -> (command: Option<Command>)
        ensures
            command is Some <==> command_of(stage@) is Some,
            command matches Some(c) ==> Some(c@) == command_of(stage@),
    {
        let mut parts = words_of(stage);
        if parts.len() == 0 {
            None
        } else {
            let ghost all = parts@;
            let program = parts.remove(0);
            assert(texts(parts@) == texts(all).skip(1));
            Some(Command { program, args: parts })
        }
    }
}

/// Reads every stage as a command, leaving out the stages without words.
pub fn parse_commands(stages: &Vec<String>) -> (commands: Vec<Command>)
    ensures
        command_views(commands@) == commands_of(texts(stages@)),
{
    let mut commands: Vec<Command> = Vec::new();
    let ghost keep = |stage: Seq<char>| command_of(stage) is Some;
    let ghost read = |stage: Seq<char>| command_of(stage)->0;
    let mut i: usize = 0;
    proof {
        reveal(Seq::filter);
        assert(texts(stages@).take(0).filter(keep).map_values(read) == Seq::<CommandView>::empty());
    }
    while i < stages.len()
        invariant
            i <= stages.len(),
            keep == |stage: Seq<char>| command_of(stage) is Some,
            read == |stage: Seq<char>| command_of(stage)->0,
            command_views(commands@) == texts(stages@).take(i as int).filter(keep).map_values(read),
        decreases stages.len() - i,
    {
        let ghost before = texts(stages@).take(i as int);
        let ghost next = texts(stages@).take(i + 1);
        proof {
            reveal(Seq::filter);
            assert(next.drop_last() == before);
            assert(next.last() == stages@[i as int]@);
        }
        match Command::parse(stages[i].as_str()) {
            Some(command) => {
                proof {
                    assert(next.filter(keep) == before.filter(keep).push(stages@[i as int]@));
                    assert(command_views(commands@.push(command)) == command_views(commands@).push(
                        command@,
                    ));
                    assert(before.filter(keep).push(stages@[i as int]@).map_values(read)
                        == before.filter(keep).map_values(read).push(command@));
                }
                commands.push(command);
            },
            None => {},
        }
        i = i + 1;
    }
    assert(texts(stages@).take(stages.len() as int) == texts(stages@));
    commands
}

} // verus!

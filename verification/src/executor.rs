//! The pipeline executor: which stage is started next, what it reads from
//! and writes to, and what becomes of the handle of the stage before it.
//!
//! The executor starts nothing itself.  It names the next step, the caller
//! performs it and reports how it went, and the executor moves on.

use crate::command::{command_views, Command, CommandView};
use crate::text::same_text;
use vstd::prelude::*;

verus! {

/// Where a stage reads its input from.
#[derive(Clone, Copy, Debug, PartialEq, Eq, Structural)]
pub enum Source {
    /// The shell's own terminal.
    Terminal,
    /// The captured output of the stage before it.
    Previous,
}

/// Where a stage writes its output to.
#[derive(Clone, Copy, Debug, PartialEq, Eq, Structural)]
pub enum Sink {
    /// The shell's own terminal.
    Terminal,
    /// A pipe that the next stage can take over.
    Pipe,
}

/// The handle that is carried from one stage to the next.
#[derive(Clone, Copy, Debug, PartialEq, Eq, Structural)]
pub enum Carried {
    /// No stage is running whose handle the executor still holds.
    Nothing,
    /// The stage before is running and its output can be captured.
    Capturable,
    /// The stage before is running and writes to the terminal.
    TerminalBound,
}

/// How the step that the executor named went.
#[derive(Clone, Debug, PartialEq, Eq)]
pub enum Outcome {
    Succeeded,
    /// The step failed; the text says why.
    Failed(String),
}

/// What the caller has to do next.
#[derive(Clone, Copy, Debug, PartialEq, Eq)]
pub enum Step<'a> {
    /// Change the shell's working directory to `path`.
    ChangeDir { path: &'a str },
    /// Leave the shell at once.
    Exit,
    /// Start `command` as a child process wired as told.
    Spawn { command: &'a Command, input: Source, output: Sink },
    /// Block until the last process started has ended.
    Wait,
    /// Nothing is left to do for this line.
    Done,
}

/// What a `Step` stands for.
pub enum StepView {
    ChangeDir { path: Seq<char> },
    Exit,
    Spawn { command: CommandView, input: Source, output: Sink },
    Wait,
    Done,
}

impl<'a> View for Step<'a> {
    type V = StepView;

    open spec fn view(&self) -> StepView {
        match *self {
            Step::ChangeDir { path } => StepView::ChangeDir { path: path@ },
            Step::Exit => StepView::Exit,
            Step::Spawn { command, input, output } => StepView::Spawn {
                command: command@,
                input,
                output,
            },
            Step::Wait => StepView::Wait,
            Step::Done => StepView::Done,
        }
    }
}

/// The state of the executor, as plain values.
pub struct ExecutorView {
    /// The commands of the line, in order.
    pub commands: Seq<CommandView>,
    /// How many of them have been handled.
    pub cursor: nat,
    /// The handle left by the command handled last.
    pub carried: Carried,
    /// Whether `exit` has been met.
    pub halted: bool,
}

impl ExecutorView {
    /// The state before the first command of `commands`.
    pub open spec fn start(commands: Seq<CommandView>) -> ExecutorView {
        ExecutorView { commands, cursor: 0, carried: Carried::Nothing, halted: false }
    }

    /// What holds of every state that the executor can reach: a handle bound
    /// to the terminal is the handle of the last command, and a capturable
    /// handle has a command after it.
    pub open spec fn inv(self) -> bool {
        &&& self.cursor <= self.commands.len()
        &&& self.carried == Carried::TerminalBound ==> self.cursor == self.commands.len()
        &&& self.carried == Carried::Capturable ==> self.cursor < self.commands.len()
        &&& self.carried != Carried::Nothing ==> self.cursor > 0
    }

    /// The step that this state asks for.
    ///
    /// `cd` and `exit` are the shell's own and start no process.  Any other
    /// command is spawned: it reads from the stage before it where that
    /// stage left a capturable handle, else from the terminal; it writes to
    /// a pipe where a command follows, else to the terminal.  When every
    /// command is handled, the last process started is waited for.
    pub open spec fn step(self) -> StepView {
        if self.halted {
            StepView::Done
        } else if self.cursor >= self.commands.len() {
            if self.carried != Carried::Nothing {
                StepView::Wait
            } else {
                StepView::Done
            }
        } else {
            let command = self.commands[self.cursor as int];
            if command.program == "cd"@ {
                StepView::ChangeDir {
                    path: if command.args.len() > 0 {
                        command.args[0]
                    } else {
                        "/"@
                    },
                }
            } else if command.program == "exit"@ {
                StepView::Exit
            } else {
                StepView::Spawn {
                    command,
                    input: if self.carried == Carried::Capturable {
                        Source::Previous
                    } else {
                        Source::Terminal
                    },
                    output: if self.cursor + 1 < self.commands.len() {
                        Sink::Pipe
                    } else {
                        Sink::Terminal
                    },
                }
            }
        }
    }

    /// The state after the step that this state asks for has been performed,
    /// with or without success.
    ///
    /// A change of directory drops the carried handle whether it succeeded
    /// or not.  A spawn replaces it: by the new process's handle where the
    /// spawn succeeded, by nothing where it failed.  `exit` halts the
    /// executor and abandons whatever is running.
    pub open spec fn after(self, succeeded: bool) -> ExecutorView {
        match self.step() {
            StepView::Done => self,
            StepView::Wait => ExecutorView { carried: Carried::Nothing, ..self },
            StepView::Exit => ExecutorView { carried: Carried::Nothing, halted: true, ..self },
            StepView::ChangeDir { .. } => ExecutorView {
                cursor: self.cursor + 1,
                carried: Carried::Nothing,
                ..self
            },
            StepView::Spawn { output, .. } => ExecutorView {
                cursor: self.cursor + 1,
                carried: if !succeeded {
                    Carried::Nothing
                } else if output == Sink::Pipe {
                    Carried::Capturable
                } else {
                    Carried::TerminalBound
                },
                ..self
            },
        }
    }
}

impl ExecutorView {
    /// The state after one step for each of `outcomes`, in order.
    pub open spec fn after_all(self, outcomes: Seq<bool>) -> ExecutorView
        decreases outcomes.len(),
    {
        if outcomes.len() == 0 {
            self
        } else {
            self.after_all(outcomes.drop_last()).after(outcomes.last())
        }
    }
}

/// Every state that the executor reaches from its start meets the
/// invariant, however the steps went.
pub proof fn lemma_invariant_holds(commands: Seq<CommandView>, outcomes: Seq<bool>)
    ensures
        ExecutorView::start(commands).after_all(outcomes).inv(),
    decreases outcomes.len(),
{
    if outcomes.len() > 0 {
        lemma_invariant_holds(commands, outcomes.drop_last());
    }
}

/// A stage writes to the terminal exactly when no command follows it.  So
/// the only stage of a line never writes to a pipe.
pub proof fn lemma_last_stage_writes_to_terminal(state: ExecutorView)
    requires
        state.step() is Spawn,
    ensures
        state.step()->output == Sink::Terminal <==> state.cursor + 1 == state.commands.len(),
        state.commands.len() == 1 ==> state.step()->output == Sink::Terminal,
{
}

/// A stage reads from the stage before it only where that stage was
/// spawned with success the step before, writing to a pipe.
pub proof fn lemma_input_is_captured_output(state: ExecutorView, succeeded: bool)
    requires
        state.inv(),
        state.after(succeeded).step() is Spawn,
        state.after(succeeded).step()->input == Source::Previous,
    ensures
        succeeded,
        state.step() is Spawn,
        state.step()->output == Sink::Pipe,
{
}

/// A spawn that fails does not stop the line: the executor moves to the
/// next command, and where that one is spawned it reads from the terminal.
pub proof fn lemma_failed_spawn_severs(state: ExecutorView)
    requires
        state.step() is Spawn,
    ensures
        state.after(false).cursor == state.cursor + 1,
        !state.after(false).halted,
        state.after(false).step() is Spawn ==> state.after(false).step()->input
            == Source::Terminal,
{
}

/// A change of directory, whether it succeeded or not, leaves no handle
/// behind and does not stop the line.
pub proof fn lemma_change_dir_drops_handle(state: ExecutorView, succeeded: bool)
    requires
        state.step() is ChangeDir,
    ensures
        state.after(succeeded).cursor == state.cursor + 1,
        state.after(succeeded).carried == Carried::Nothing,
        !state.after(succeeded).halted,
{
}

/// After `exit` nothing is left to do, whatever is still running: no
/// process is waited for and no later command is reached.
pub proof fn lemma_exit_ends_the_line(state: ExecutorView, outcomes: Seq<bool>)
    requires
        state.step() is Exit,
        outcomes.len() > 0,
    ensures
        state.after_all(outcomes).halted,
        state.after_all(outcomes).step() is Done,
    decreases outcomes.len(),
{
    let before = state.after_all(outcomes.drop_last());
    if outcomes.len() > 1 {
        lemma_exit_ends_the_line(state, outcomes.drop_last());
    } else {
        assert(before == state);
    }
    assert(state.after_all(outcomes) == before.after(outcomes.last()));
}

/// The executor waits only when every command is handled, and then for a
/// process that writes to the terminal: the last stage of the line.
pub proof fn lemma_wait_is_for_the_last_stage(state: ExecutorView)
    requires
        state.inv(),
        state.step() is Wait,
    ensures
        state.cursor == state.commands.len(),
        state.carried == Carried::TerminalBound,
{
}

/// The executor of one line's pipeline.
pub struct Executor {
    commands: Vec<Command>,
    cursor: usize,
    carried: Carried,
    halted: bool,
}

impl View for Executor {
    type V = ExecutorView;

    closed spec fn view(&self) -> ExecutorView {
        ExecutorView {
            commands: command_views(self.commands@),
            cursor: self.cursor as nat,
            carried: self.carried,
            halted: self.halted,
        }
    }
}

impl Executor {
    #[verifier::type_invariant]
    spec fn well_formed(self) -> bool {
        self@.inv()
    }

    /// An executor that has handled none of `commands`.
    pub fn new(commands: Vec<Command>) -> (executor: Executor)
        ensures
            executor@ == ExecutorView::start(command_views(commands@)),
    {
        Executor { commands, cursor: 0, carried: Carried::Nothing, halted: false }
    }

    /// The step that the caller has to perform next.
    pub fn next_step(&self) -> (step: Step<'_>)
        ensures
            step@ == self@.step(),
            self@.inv(),
    {
        proof {
            use_type_invariant(self);
        }
        if self.halted {
            Step::Done
        } else if self.cursor >= self.commands.len() {
            match self.carried {
                Carried::Nothing => Step::Done,
                _ => Step::Wait,
            }
        } else {
            let command = &self.commands[self.cursor];
            if same_text(command.program.as_str(), "cd") {
                if command.args.len() > 0 {
                    Step::ChangeDir { path: command.args[0].as_str() }
                } else {
                    Step::ChangeDir { path: "/" }
                }
            } else if same_text(command.program.as_str(), "exit") {
                Step::Exit
            } else {
                let input = match self.carried {
                    Carried::Capturable => Source::Previous,
                    _ => Source::Terminal,
                };
                let output = if self.cursor + 1 < self.commands.len() {
                    Sink::Pipe
                } else {
                    Sink::Terminal
                };
                Step::Spawn { command, input, output }
            }
        }
    }

    /// Takes note of how the step named by `next_step` went, and moves on.
    ///
    /// Returns what has to be written to the error stream: the text of a
    /// failure, and nothing after a success.
    pub fn record(&mut self, outcome: Outcome) -> (report: Option<String>)
        ensures
            final(self)@ == old(self)@.after(outcome is Succeeded),
            final(self)@.inv(),
            report == match outcome {
                Outcome::Succeeded => None,
                Outcome::Failed(text) => Some(text),
            },
    {
        proof {
            use_type_invariant(&*self);
        }
        let succeeded = match outcome {
            Outcome::Succeeded => true,
            Outcome::Failed(_) => false,
        };
        let cursor = self.cursor;
        let carried = self.carried;
        let halted = self.halted;
        let count = self.commands.len();
        let mut next_cursor = cursor;
        let mut next_carried = carried;
        let mut next_halted = halted;
        match self.next_step() {
            Step::Done => {},
            Step::Wait => {
                next_carried = Carried::Nothing;
            },
            Step::Exit => {
                next_carried = Carried::Nothing;
                next_halted = true;
            },
            Step::ChangeDir { .. } => {
                next_cursor = cursor + 1;
                next_carried = Carried::Nothing;
            },
            Step::Spawn { output, .. } => {
                next_cursor = cursor + 1;
                next_carried = if !succeeded {
                    Carried::Nothing
                } else {
                    match output {
                        Sink::Pipe => Carried::Capturable,
                        Sink::Terminal => Carried::TerminalBound,
                    }
                };
            },
        }
        self.carried = Carried::Nothing;
        self.cursor = next_cursor;
        self.carried = next_carried;
        self.halted = next_halted;
        match outcome {
            Outcome::Succeeded => None,
            Outcome::Failed(text) => Some(text),
        }
    }
}

} // verus!

//! The driver of the read-eval loop, as a state machine.
//!
//! The shell starts by reading its startup file, then takes one line at a
//! time: it expands the line's variables, cuts it into a pipeline and lets
//! the executor name the steps.  The caller does what only it can do: it
//! reads the file and the terminal, starts the processes, and tells the
//! shell how each step went.

use crate::command::{commands_of, parse_commands, CommandView};
use crate::config::{configured, setup, ConfigError};
use crate::environment::Environment;
use crate::executor::{Executor, ExecutorView, Outcome, Step};
use crate::expand::{expand_line, expanded, failed, failure_views, Failure};
use crate::pipeline::{line_stages, split_line};
use vstd::prelude::*;

verus! {

/// Where the shell stands in its loop.
#[derive(Clone, Copy, Debug, PartialEq, Eq, Structural)]
pub enum Phase {
    /// The startup file has not been read yet.
    Bootstrapping,
    /// The shell waits for a line from the terminal.
    AwaitingInput,
    /// A line has been read and its variables are to be expanded.
    Substituting,
    /// The pipeline of the line is being executed.
    Dispatching,
    /// `exit` has been met; the loop is over.
    Terminated,
}

/// The state of the shell, as plain values.
pub struct ShellView {
    /// The shell's variables.
    pub variables: Map<Seq<char>, Seq<char>>,
    pub phase: Phase,
    /// The line read last.
    pub line: Seq<char>,
    /// The executor of the line's pipeline.
    pub executor: ExecutorView,
}

/// The commands that the line `line` asks for, with the variables
/// `variables`: the line is expanded field by field and cut into stages,
/// and each stage is read as a command.
pub open spec fn pipeline_of(line: Seq<char>, variables: Map<Seq<char>, Seq<char>>) -> Seq<
    CommandView,
> {
    commands_of(line_stages(expanded(line, variables)))
}

/// The phase after a step of the executor: the loop is over after `exit`,
/// waits for the next line when the executor has nothing left to do, and
/// else goes on with the pipeline.
pub open spec fn phase_after(before: ExecutorView, after: ExecutorView) -> Phase {
    if before.step() is Exit {
        Phase::Terminated
    } else if after.step() is Done {
        Phase::AwaitingInput
    } else {
        Phase::Dispatching
    }
}

/// Only `exit` ends the loop: whatever else a step was and however it
/// went, the shell goes on with the line or waits for the next one.
pub proof fn lemma_only_exit_terminates(before: ExecutorView, succeeded: bool)
    ensures
        phase_after(before, before.after(succeeded)) == Phase::Terminated <==> before.step()
            is Exit,
{
}

/// What the shell writes to the terminal before it reads a line.
pub const PROMPT: &'static str = "> ";

/// The shell.
pub struct Shell {
    env: Environment,
    phase: Phase,
    line: String,
    executor: Executor,
}

impl View for Shell {
    type V = ShellView;

    closed spec fn view(&self) -> ShellView {
        ShellView {
            variables: self.env@,
            phase: self.phase,
            line: self.line@,
            executor: self.executor@,
        }
    }
}

impl Shell {
    /// A shell that has the variables of `env` and has not read its startup
    /// file yet.
    pub fn new(env: Environment) -> (shell: Shell)
        ensures
            shell@ == (ShellView {
                variables: env@,
                phase: Phase::Bootstrapping,
                line: Seq::empty(),
                executor: ExecutorView::start(Seq::empty()),
            }),
    {
        let executor = Executor::new(Vec::new());
        assert(executor@.commands == Seq::<CommandView>::empty());
        Shell { env, phase: Phase::Bootstrapping, line: String::new(), executor }
    }

    /// Where the shell stands.
    pub fn phase(&self) -> (phase: Phase)
        ensures
            phase == self@.phase,
    {
        self.phase
    }

    /// The shell's variables.
    pub fn environment(&self) -> (env: &Environment)
        ensures
            env@ == self@.variables,
    {
        &self.env
    }

    /// Reads the startup file, whose text is `contents`, or nothing where
    /// the file could not be read.
    ///
    /// With a text the variables are set and the shell waits for input.
    /// Without one the call fails and the shell stays as it was: it is the
    /// caller's to give up or to go on with another text.
    pub fn bootstrap(&mut self, contents: Option<&str>) -> (result: Result<(), ConfigError>)
        requires
            old(self)@.phase == Phase::Bootstrapping,
        ensures
            result is Ok <==> contents is Some,
            result matches Err(error) ==> error == ConfigError::NotFound,
            final(self)@ == match contents {
                Some(text) => ShellView {
                    variables: configured(old(self)@.variables, text@),
                    phase: Phase::AwaitingInput,
                    ..old(self)@
                },
                None => old(self)@,
            },
    {
        let result = setup(contents, &mut self.env);
        if result.is_ok() {
            self.phase = Phase::AwaitingInput;
        }
        result
    }

    /// Takes the line that the terminal gave.
    pub fn read(&mut self, line: &str)
        requires
            old(self)@.phase == Phase::AwaitingInput,
        ensures
            final(self)@ == (ShellView { phase: Phase::Substituting, line: line@, ..old(self)@ }),
    {
        self.line = line.to_owned();
        self.phase = Phase::Substituting;
    }

    /// Expands the variables of the line and makes its pipeline ready.
    ///
    /// Returns the fields that could not be expanded, each with the reason
    /// that has to be written to the error stream.  Such a field is left
    /// out of the line, and the line goes on without it.  A line that asks
    /// for no command sends the shell back to waiting for input.
    pub fn substitute(&mut self) -> (failures: Vec<Failure>)
        requires
            old(self)@.phase == Phase::Substituting,
        ensures
            failure_views(failures@) == failed(old(self)@.line, old(self)@.variables),
            final(self)@.variables == old(self)@.variables,
            final(self)@.line == old(self)@.line,
            final(self)@.executor == ExecutorView::start(
                pipeline_of(old(self)@.line, old(self)@.variables),
            ),
            final(self)@.phase == if final(self)@.executor.step() is Done {
                Phase::AwaitingInput
            } else {
                Phase::Dispatching
            },
    {
        let expansion = expand_line(self.line.as_str(), &self.env);
        let stages = split_line(expansion.text.as_str());
        self.executor = Executor::new(parse_commands(&stages));
        let idle = match self.executor.next_step() {
            Step::Done => true,
            _ => false,
        };
        self.phase = if idle {
            Phase::AwaitingInput
        } else {
            Phase::Dispatching
        };
        expansion.failures
    }

    /// The step of the pipeline that the caller has to perform next.
    pub fn next_step(&self) -> (step: Step<'_>)
        requires
            self@.phase == Phase::Dispatching,
        ensures
            step@ == self@.executor.step(),
            self@.executor.inv(),
    {
        self.executor.next_step()
    }

    /// Takes note of how the step named by `next_step` went.
    ///
    /// Returns what has to be written to the error stream.  After `exit`
    /// the loop is over at once, whatever is still running; when the
    /// pipeline has nothing left to do the shell waits for the next line.
    pub fn record(&mut self, outcome: Outcome) -> (report: Option<String>)
        requires
            old(self)@.phase == Phase::Dispatching,
        ensures
            final(self)@.variables == old(self)@.variables,
            final(self)@.line == old(self)@.line,
            final(self)@.executor == old(self)@.executor.after(outcome is Succeeded),
            final(self)@.phase == phase_after(old(self)@.executor, final(self)@.executor),
            report == match outcome {
                Outcome::Succeeded => None,
                Outcome::Failed(text) => Some(text),
            },
    {
        let leaving = match self.executor.next_step() {
            Step::Exit => true,
            _ => false,
        };
        let report = self.executor.record(outcome);
        let idle = match self.executor.next_step() {
            Step::Done => true,
            _ => false,
        };
        self.phase = if leaving {
            Phase::Terminated
        } else if idle {
            Phase::AwaitingInput
        } else {
            Phase::Dispatching
        };
        report
    }
}

} // verus!

use clara::command::Command;
use clara::config::ConfigError;
use clara::environment::Environment;
use clara::executor::{Outcome, Sink, Source, Step};
use clara::expand::Failure;
use clara::shell::{Phase, Shell, PROMPT};

fn command(program: &str, args: &[&str]) -> Command {
    Command { program: program.to_string(), args: args.iter().map(|s| s.to_string()).collect() }
}

fn ready(config: &str) -> Shell {
    let mut shell = Shell::new(Environment::new());
    shell.bootstrap(Some(config)).unwrap();
    shell
}

#[test]
fn a_shell_starts_by_bootstrapping() {
    let mut env = Environment::new();
    env.set("HOME".to_string(), "/root".to_string());
    let shell = Shell::new(env);
    assert_eq!(shell.phase(), Phase::Bootstrapping);
    assert_eq!(shell.environment().get("HOME"), Some("/root"));
}

#[test]
fn bootstrap_sets_the_variables_and_waits_for_input() {
    let mut shell = Shell::new(Environment::new());
    assert_eq!(shell.bootstrap(Some("export GREETING=\"hi\"\n")), Ok(()));
    assert_eq!(shell.phase(), Phase::AwaitingInput);
    assert_eq!(shell.environment().get("GREETING"), Some("hi"));
    assert_eq!(shell.environment().len(), 1);
}

#[test]
fn bootstrap_without_a_file_fails_and_may_be_tried_again() {
    let mut shell = Shell::new(Environment::new());
    assert_eq!(shell.bootstrap(None), Err(ConfigError::NotFound));
    assert_eq!(shell.phase(), Phase::Bootstrapping);
    assert_eq!(shell.environment().len(), 0);
    assert_eq!(shell.bootstrap(Some("")), Ok(()));
    assert_eq!(shell.phase(), Phase::AwaitingInput);
    assert_eq!(shell.environment().len(), 0);
}

#[test]
fn a_line_runs_through_the_loop() {
    let mut shell = ready("export GREETING=\"hi\"");
    shell.read("echo $GREETING | cat\n");
    assert_eq!(shell.phase(), Phase::Substituting);
    assert_eq!(shell.substitute(), Vec::<Failure>::new());
    assert_eq!(shell.phase(), Phase::Dispatching);
    assert_eq!(
        shell.next_step(),
        Step::Spawn {
            command: &command("echo", &["hi"]),
            input: Source::Terminal,
            output: Sink::Pipe,
        }
    );
    assert_eq!(shell.record(Outcome::Succeeded), None);
    assert_eq!(shell.phase(), Phase::Dispatching);
    assert_eq!(
        shell.next_step(),
        Step::Spawn {
            command: &command("cat", &[]),
            input: Source::Previous,
            output: Sink::Terminal,
        }
    );
    shell.record(Outcome::Succeeded);
    assert_eq!(shell.phase(), Phase::Dispatching);
    assert_eq!(shell.next_step(), Step::Wait);
    shell.record(Outcome::Succeeded);
    assert_eq!(shell.phase(), Phase::AwaitingInput);
}

#[test]
fn a_line_without_command_goes_back_to_waiting() {
    let mut shell = ready("");
    for line in ["\n", "", "   \n", "\t \u{a0}\n"] {
        shell.read(line);
        assert_eq!(shell.substitute(), Vec::<Failure>::new());
        assert_eq!(shell.phase(), Phase::AwaitingInput);
    }
}

#[test]
fn a_failed_substitution_is_reported_and_the_line_goes_on() {
    let mut shell = ready("");
    shell.read("echo $MISSING done\n");
    assert_eq!(
        shell.substitute(),
        vec![Failure {
            field: "$MISSING".to_string(),
            reason: "No such variable: $MISSING".to_string(),
        }]
    );
    assert_eq!(shell.phase(), Phase::Dispatching);
    assert_eq!(
        shell.next_step(),
        Step::Spawn {
            command: &command("echo", &["done"]),
            input: Source::Terminal,
            output: Sink::Terminal,
        }
    );
}

#[test]
fn a_line_of_failed_substitutions_only_asks_for_nothing() {
    let mut shell = ready("");
    shell.read("$MISSING\n");
    assert_eq!(shell.substitute().len(), 1);
    assert_eq!(shell.phase(), Phase::AwaitingInput);
}

#[test]
fn a_value_may_bring_a_pipeline_of_its_own() {
    let mut shell = ready("export BOTH=\"echo hi | cat\"");
    shell.read("$BOTH\n");
    shell.substitute();
    assert_eq!(
        shell.next_step(),
        Step::Spawn {
            command: &command("echo", &["hi"]),
            input: Source::Terminal,
            output: Sink::Pipe,
        }
    );
}

#[test]
fn a_pipe_alone_asks_for_no_command() {
    let mut shell = ready("");
    for line in [" | \n", "|\n", " |  | \n"] {
        shell.read(line);
        assert_eq!(shell.substitute(), Vec::<Failure>::new());
        assert_eq!(shell.phase(), Phase::AwaitingInput);
    }
}

#[test]
fn empty_stages_inside_the_line_are_left_out() {
    let mut shell = ready("");
    shell.read("a |  | b\n");
    shell.substitute();
    assert_eq!(
        shell.next_step(),
        Step::Spawn { command: &command("a", &[]), input: Source::Terminal, output: Sink::Pipe }
    );
    shell.record(Outcome::Succeeded);
    assert_eq!(
        shell.next_step(),
        Step::Spawn {
            command: &command("b", &[]),
            input: Source::Previous,
            output: Sink::Terminal,
        }
    );
}

#[test]
fn a_pipe_at_the_end_of_the_line_is_dropped() {
    let mut shell = ready("");
    for line in ["a |  \n", "a | \n", "a |\n"] {
        shell.read(line);
        assert_eq!(shell.substitute(), Vec::<Failure>::new());
        assert_eq!(shell.phase(), Phase::Dispatching);
        assert_eq!(
            shell.next_step(),
            Step::Spawn {
                command: &command("a", &[]),
                input: Source::Terminal,
                output: Sink::Terminal,
            }
        );
        assert_eq!(shell.record(Outcome::Succeeded), None);
        assert_eq!(shell.next_step(), Step::Wait);
        shell.record(Outcome::Succeeded);
        assert_eq!(shell.phase(), Phase::AwaitingInput);
    }
}

#[test]
fn a_pipe_at_the_start_of_the_line_is_dropped() {
    let mut shell = ready("");
    shell.read("| a b\n");
    shell.substitute();
    assert_eq!(
        shell.next_step(),
        Step::Spawn {
            command: &command("a", &["b"]),
            input: Source::Terminal,
            output: Sink::Terminal,
        }
    );
}

#[test]
fn a_failed_field_between_two_pipes_leaves_an_empty_stage_out() {
    let mut shell = ready("");
    shell.read("a | $MISSING | b\n");
    assert_eq!(shell.substitute().len(), 1);
    assert_eq!(
        shell.next_step(),
        Step::Spawn { command: &command("a", &[]), input: Source::Terminal, output: Sink::Pipe }
    );
    shell.record(Outcome::Succeeded);
    assert_eq!(
        shell.next_step(),
        Step::Spawn {
            command: &command("b", &[]),
            input: Source::Previous,
            output: Sink::Terminal,
        }
    );
}

#[test]
fn a_tab_does_not_make_a_delimiter() {
    let mut shell = ready("");
    shell.read("a\t|\tb\n");
    shell.substitute();
    assert_eq!(
        shell.next_step(),
        Step::Spawn {
            command: &command("a", &["|", "b"]),
            input: Source::Terminal,
            output: Sink::Terminal,
        }
    );
}

#[test]
fn exit_terminates_the_loop() {
    let mut shell = ready("");
    shell.read("exit\n");
    shell.substitute();
    assert_eq!(shell.phase(), Phase::Dispatching);
    assert_eq!(shell.next_step(), Step::Exit);
    assert_eq!(shell.record(Outcome::Succeeded), None);
    assert_eq!(shell.phase(), Phase::Terminated);
}

#[test]
fn exit_terminates_the_loop_while_a_stage_is_running() {
    let mut shell = ready("");
    shell.read("sleep 10 | exit\n");
    shell.substitute();
    assert_eq!(
        shell.next_step(),
        Step::Spawn {
            command: &command("sleep", &["10"]),
            input: Source::Terminal,
            output: Sink::Pipe,
        }
    );
    shell.record(Outcome::Succeeded);
    assert_eq!(shell.next_step(), Step::Exit);
    shell.record(Outcome::Succeeded);
    assert_eq!(shell.phase(), Phase::Terminated);
}

#[test]
fn cd_reports_a_failure_and_the_loop_goes_on() {
    let mut shell = ready("");
    shell.read("cd /nonexistent\n");
    shell.substitute();
    assert_eq!(shell.next_step(), Step::ChangeDir { path: "/nonexistent" });
    assert_eq!(
        shell.record(Outcome::Failed("No such file or directory".to_string())),
        Some("No such file or directory".to_string())
    );
    assert_eq!(shell.phase(), Phase::AwaitingInput);
    shell.read("cd\n");
    shell.substitute();
    assert_eq!(shell.next_step(), Step::ChangeDir { path: "/" });
    assert_eq!(shell.record(Outcome::Succeeded), None);
    assert_eq!(shell.phase(), Phase::AwaitingInput);
}

#[test]
fn a_spawn_that_fails_does_not_end_the_loop() {
    let mut shell = ready("");
    shell.read("no-such-program | cat\n");
    shell.substitute();
    assert_eq!(
        shell.record(Outcome::Failed("not found".to_string())),
        Some("not found".to_string())
    );
    assert_eq!(shell.phase(), Phase::Dispatching);
    assert_eq!(
        shell.next_step(),
        Step::Spawn {
            command: &command("cat", &[]),
            input: Source::Terminal,
            output: Sink::Terminal,
        }
    );
    shell.record(Outcome::Failed("not found either".to_string()));
    assert_eq!(shell.phase(), Phase::AwaitingInput);
}

#[test]
fn the_prompt_is_an_angle_and_a_space() {
    assert_eq!(PROMPT, "> ");
}

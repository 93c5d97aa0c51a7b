use clara::command::{parse_commands, Command};
use clara::pipeline::{split_line, split_pipeline};
use clara::text::{is_whitespace, padded, same_text, starts_name, words_of, CharClass};

fn strings(items: &[&str]) -> Vec<String> {
    items.iter().map(|s| s.to_string()).collect()
}

fn command(program: &str, args: &[&str]) -> Command {
    Command { program: program.to_string(), args: strings(args) }
}

#[test]
fn splits_three_stages() {
    assert_eq!(split_pipeline("a | b | c"), strings(&["a", "b", "c"]));
}

#[test]
fn drops_a_trailing_empty_stage() {
    assert_eq!(split_pipeline("a |  "), strings(&["a"]));
}

#[test]
fn drops_empty_stages_everywhere() {
    assert_eq!(split_pipeline(""), Vec::<String>::new());
    assert_eq!(split_pipeline("   "), Vec::<String>::new());
    assert_eq!(split_pipeline(" | "), Vec::<String>::new());
    assert_eq!(split_pipeline(" | a"), strings(&["a"]));
    assert_eq!(split_pipeline("a |  | b"), strings(&["a", "b"]));
    assert_eq!(split_pipeline("a | \t | b | "), strings(&["a", "b"]));
}

#[test]
fn a_pipe_without_spaces_is_no_delimiter() {
    assert_eq!(split_pipeline("a|b"), strings(&["a|b"]));
    assert_eq!(split_pipeline("a |b"), strings(&["a |b"]));
    assert_eq!(split_pipeline("a| b"), strings(&["a| b"]));
    assert_eq!(split_pipeline("a |"), strings(&["a |"]));
    assert_eq!(split_pipeline("| a"), strings(&["| a"]));
}

#[test]
fn delimiters_do_not_overlap() {
    assert_eq!(split_pipeline("a | | b"), strings(&["a", "| b"]));
}

#[test]
fn stages_lose_the_white_space_around_them() {
    assert_eq!(split_pipeline("  ls -l   |   wc  -c \n"), strings(&["ls -l", "wc  -c"]));
    assert_eq!(split_pipeline("\u{3000}ls\u{a0} | \twc"), strings(&["ls", "wc"]));
}

#[test]
fn a_line_without_delimiter_is_one_stage() {
    assert_eq!(split_pipeline("echo hello world"), strings(&["echo hello world"]));
}

#[test]
fn command_is_the_first_word_and_its_arguments() {
    assert_eq!(Command::parse("ls -l  /tmp"), Some(command("ls", &["-l", "/tmp"])));
    assert_eq!(Command::parse("  exit\n"), Some(command("exit", &[])));
    assert_eq!(Command::parse("a\tb\u{2003}c"), Some(command("a", &["b", "c"])));
}

#[test]
fn a_stage_without_words_is_no_command() {
    assert_eq!(Command::parse(""), None);
    assert_eq!(Command::parse(" \t\n"), None);
}

#[test]
fn commands_keep_the_order_of_the_stages() {
    let stages = strings(&["echo hi", "  ", "cat", ""]);
    assert_eq!(parse_commands(&stages), vec![command("echo", &["hi"]), command("cat", &[])]);
    assert_eq!(parse_commands(&Vec::new()), Vec::<Command>::new());
}

#[test]
fn words_are_the_runs_between_white_space() {
    assert_eq!(words_of("  a  bc\td\n"), strings(&["a", "bc", "d"]));
    assert_eq!(words_of(""), Vec::<String>::new());
    assert_eq!(words_of("one"), strings(&["one"]));
}

#[test]
fn padding_trims_and_puts_one_space_at_each_end() {
    assert_eq!(padded("  a b  "), " a b ");
    assert_eq!(padded("\n\t"), "  ");
    assert_eq!(padded(""), "  ");
    assert_eq!(padded("x"), " x ");
    assert_eq!(padded("\u{2028}x y\u{85}"), " x y ");
}

#[test]
fn a_pipe_that_ends_the_line_is_dropped() {
    assert_eq!(split_line("a |  "), strings(&["a"]));
    assert_eq!(split_line("a |"), strings(&["a"]));
    assert_eq!(split_line("a |\n"), strings(&["a"]));
    assert_eq!(split_line("echo hi | cat | \n"), strings(&["echo hi", "cat"]));
}

#[test]
fn a_pipe_that_begins_the_line_is_dropped() {
    assert_eq!(split_line("| a"), strings(&["a"]));
    assert_eq!(split_line("  | a | b"), strings(&["a", "b"]));
}

#[test]
fn a_pipe_alone_asks_for_nothing() {
    assert_eq!(split_line("|"), Vec::<String>::new());
    assert_eq!(split_line(" | \n"), Vec::<String>::new());
    assert_eq!(split_line(""), Vec::<String>::new());
    assert_eq!(split_line(" \n"), Vec::<String>::new());
}

#[test]
fn a_line_is_cut_like_any_text_inside() {
    assert_eq!(split_line("a | b | c\n"), strings(&["a", "b", "c"]));
    assert_eq!(split_line("a |  | b"), strings(&["a", "b"]));
    assert_eq!(split_line("a|b"), strings(&["a|b"]));
    assert_eq!(split_line("a |b"), strings(&["a |b"]));
    assert_eq!(split_line("|a"), strings(&["|a"]));
    assert_eq!(split_line("a | | b"), strings(&["a", "| b"]));
}

#[test]
fn white_space_is_what_unicode_says() {
    for c in ['\t', '\n', '\u{b}', '\u{c}', '\r', ' ', '\u{85}', '\u{a0}', '\u{1680}', '\u{2000}',
        '\u{200a}', '\u{2028}', '\u{2029}', '\u{202f}', '\u{205f}', '\u{3000}']
    {
        assert!(is_whitespace(c));
    }
    for c in ['a', '|', '\u{0}', '\u{8}', '\u{e}', '\u{200b}', '\u{feff}', '\u{180e}'] {
        assert!(!is_whitespace(c));
    }
    let mut code = 0u32;
    while code < 0x11_0000 {
        if let Some(c) = char::from_u32(code) {
            assert_eq!(is_whitespace(c), c.is_whitespace());
        }
        code += 1;
    }
}

#[test]
fn character_classes() {
    assert!(starts_name('a') && starts_name('Z') && starts_name('_'));
    assert!(!starts_name('0') && !starts_name('-') && !starts_name('é'));
    assert!(CharClass::Name.contains('7') && CharClass::Name.contains('_'));
    assert!(!CharClass::Name.contains('=') && !CharClass::Name.contains(' '));
    assert!(CharClass::Unquoted.contains('a') && !CharClass::Unquoted.contains('"'));
    assert!(CharClass::Space.contains(' ') && !CharClass::Space.contains('x'));
    assert!(CharClass::Visible.contains('x') && !CharClass::Visible.contains('\n'));
}

#[test]
fn same_text_compares_character_by_character() {
    assert!(same_text("cd", "cd"));
    assert!(same_text("", ""));
    assert!(!same_text("cd", "cd "));
    assert!(!same_text("cd", "ce"));
    assert!(!same_text("exit", "exi"));
}

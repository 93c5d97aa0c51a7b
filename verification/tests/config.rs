use clara::config::{load, locate, setup, ConfigError, Startup, DEFAULT_CONFIG};
use clara::environment::Environment;
use clara::lexer::{drop_errors, lex_all, tokenize, Lexer};
use clara::parser::Parser;
use clara::token::Token;

fn ident(name: &str) -> Token {
    Token::Identifier(name.to_string())
}

fn literal(text: &str) -> Token {
    Token::StringLiteral(text.to_string())
}

#[test]
fn test_empty_config() {
    let mut env = Environment::new();
    setup(Some(""), &mut env).unwrap();
    assert_eq!(env.len(), 0);
}

#[test]
fn test_simple_config() {
    let mut env = Environment::new();
    setup(Some("export TEST=\"test\""), &mut env).unwrap();
    assert_eq!(env.get("TEST"), Some("test"));
    assert_eq!(env.len(), 1);
}

#[test]
fn missing_config_is_an_error_and_changes_nothing() {
    let mut env = Environment::new();
    env.set("KEEP".to_string(), "me".to_string());
    assert_eq!(setup(None, &mut env), Err(ConfigError::NotFound));
    assert_eq!(env.len(), 1);
    assert_eq!(env.get("KEEP"), Some("me"));
    assert_eq!(ConfigError::NotFound.message(), "Error: config file not found");
}

#[test]
fn empty_config_leaves_the_variables_alone() {
    let mut env = Environment::new();
    env.set("HOME".to_string(), "/root".to_string());
    assert_eq!(load("", &mut env), 0);
    assert_eq!(load(" \n\t\n", &mut env), 0);
    assert_eq!(env.len(), 1);
    assert_eq!(env.get("HOME"), Some("/root"));
}

#[test]
fn quotes_are_stripped_and_the_value_is_kept_exactly() {
    let mut env = Environment::new();
    let applied = load("export GREETING=\"hello  world = $x\"\n", &mut env);
    assert_eq!(applied, 1);
    assert_eq!(env.get("GREETING"), Some("hello  world = $x"));
}

#[test]
fn white_space_between_tokens_does_not_count() {
    let mut env = Environment::new();
    load("  export\n\tA   =\n\"1\"   export B=\"\"", &mut env);
    assert_eq!(env.get("A"), Some("1"));
    assert_eq!(env.get("B"), Some(""));
    assert_eq!(env.len(), 2);
}

#[test]
fn garbage_between_statements_is_passed_over() {
    let text = "@@@ 123 ???\nexport A=\"1\"\nfoo bar = \"baz\"\n# note\nexport B=\"two words\"\n%%";
    let mut env = Environment::new();
    assert_eq!(load(text, &mut env), 2);
    assert_eq!(env.get("A"), Some("1"));
    assert_eq!(env.get("B"), Some("two words"));
    assert_eq!(env.get("foo"), None);
    assert_eq!(env.get("bar"), None);
    assert_eq!(env.len(), 2);
}

#[test]
fn statements_apply_in_order_and_the_last_one_wins() {
    let mut env = Environment::new();
    assert_eq!(load("export A=\"1\"\nexport B=\"2\"\nexport A=\"3\"\n", &mut env), 3);
    assert_eq!(env.get("A"), Some("3"));
    assert_eq!(env.get("B"), Some("2"));
    assert_eq!(env.len(), 2);
}

#[test]
fn reading_the_same_config_twice_changes_nothing() {
    let text = "export A=\"1\"\nexport B=\"2\"\nexport A=\"3\"\n";
    let mut once = Environment::new();
    load(text, &mut once);
    let mut twice = Environment::new();
    load(text, &mut twice);
    load(text, &mut twice);
    assert_eq!(twice.len(), once.len());
    assert_eq!(twice.get("A"), once.get("A"));
    assert_eq!(twice.get("B"), once.get("B"));
}

#[test]
fn a_broken_statement_is_not_applied_in_part() {
    let mut env = Environment::new();
    assert_eq!(load("export A=\nexport B=\"2\"\nexport =\"3\"\nexport C \"4\"", &mut env), 1);
    assert_eq!(env.get("A"), None);
    assert_eq!(env.get("B"), Some("2"));
    assert_eq!(env.get("C"), None);
    assert_eq!(env.len(), 1);
}

#[test]
fn a_keyword_in_front_of_a_statement_is_passed_over() {
    let mut env = Environment::new();
    assert_eq!(load("export export A=\"1\"", &mut env), 1);
    assert_eq!(env.get("A"), Some("1"));
}

#[test]
fn an_unclosed_quote_is_an_error_and_assigns_nothing() {
    let mut env = Environment::new();
    assert_eq!(load("export A=\"abc", &mut env), 0);
    assert_eq!(env.len(), 0);
    assert_eq!(
        lex_all("export A=\"abc"),
        vec![Token::Export, ident("A"), Token::Assign, Token::Error, ident("abc")]
    );
}

#[test]
fn a_second_quote_ends_the_string() {
    assert_eq!(
        tokenize("export A=\"a\"b\"c\""),
        vec![Token::Export, ident("A"), Token::Assign, literal("a"), ident("b"), literal("c")]
    );
    let mut env = Environment::new();
    load("export A=\"a\"b\"c\"", &mut env);
    assert_eq!(env.get("A"), Some("a"));
}

#[test]
fn a_string_may_span_lines() {
    let mut env = Environment::new();
    load("export A=\"one\ntwo\"", &mut env);
    assert_eq!(env.get("A"), Some("one\ntwo"));
}

#[test]
fn lexer_reads_each_kind_of_token() {
    assert_eq!(
        lex_all("export NAME_1 = \"v\" 9 _x"),
        vec![
            Token::Export,
            ident("NAME_1"),
            Token::Assign,
            literal("v"),
            Token::Error,
            ident("_x"),
        ]
    );
    assert_eq!(lex_all(""), Vec::<Token>::new());
    assert_eq!(lex_all("   \n"), Vec::<Token>::new());
}

#[test]
fn a_name_that_only_begins_like_the_keyword_is_an_identifier() {
    assert_eq!(lex_all("exportx"), vec![ident("exportx")]);
    assert_eq!(lex_all("export_"), vec![ident("export_")]);
    assert_eq!(lex_all("expor"), vec![ident("expor")]);
    assert_eq!(lex_all("Export"), vec![ident("Export")]);
    assert_eq!(lex_all("export="), vec![Token::Export, Token::Assign]);
}

#[test]
fn a_digit_does_not_begin_a_name() {
    assert_eq!(lex_all("9lives"), vec![Token::Error, ident("lives")]);
    assert_eq!(tokenize("9lives"), vec![ident("lives")]);
    assert_eq!(lex_all("a9"), vec![ident("a9")]);
}

#[test]
fn letters_outside_ascii_are_errors() {
    assert_eq!(lex_all("é"), vec![Token::Error]);
    assert_eq!(tokenize("é=ü"), vec![Token::Assign]);
}

#[test]
fn errors_are_dropped_and_the_order_is_kept() {
    assert_eq!(
        drop_errors(vec![Token::Error, Token::Export, Token::Error, ident("A"), Token::Error]),
        vec![Token::Export, ident("A")]
    );
    assert_eq!(drop_errors(vec![]), Vec::<Token>::new());
    assert_eq!(tokenize("# export A = ?"), vec![Token::Export, ident("A"), Token::Assign]);
}

#[test]
fn lexer_hands_out_one_token_at_a_time() {
    let mut lexer = Lexer::new("  A=  \"b c\" !");
    assert_eq!(lexer.next_token(), Some(ident("A")));
    assert_eq!(lexer.next_token(), Some(Token::Assign));
    assert_eq!(lexer.next_token(), Some(literal("b c")));
    assert_eq!(lexer.next_token(), Some(Token::Error));
    assert_eq!(lexer.next_token(), None);
    assert_eq!(lexer.next_token(), None);
}

#[test]
fn parser_counts_the_statements_it_applies() {
    let tokens = vec![
        ident("stray"),
        Token::Export,
        ident("A"),
        Token::Assign,
        literal("1"),
        Token::Assign,
        Token::Export,
        ident("B"),
        Token::Assign,
        literal("2"),
        Token::Export,
        ident("C"),
    ];
    let mut env = Environment::new();
    let mut parser = Parser::new(tokens);
    assert_eq!(parser.run(&mut env), 2);
    assert_eq!(env.get("A"), Some("1"));
    assert_eq!(env.get("B"), Some("2"));
    assert_eq!(env.get("C"), None);
    assert_eq!(parser.run(&mut env), 0);
    assert_eq!(env.len(), 2);
}

#[test]
fn parser_does_not_take_an_error_token_for_a_statement() {
    let tokens = vec![Token::Export, ident("A"), Token::Error, Token::Assign, literal("1")];
    let mut env = Environment::new();
    assert_eq!(Parser::new(tokens).run(&mut env), 0);
    assert_eq!(env.len(), 0);
}

#[test]
fn a_named_startup_file_is_read() {
    assert_eq!(locate(Some("my.rc"), true), Startup::Load { path: "my.rc" });
    assert_eq!(locate(Some("my.rc"), false), Startup::Load { path: "my.rc" });
}

#[test]
fn the_default_startup_file_is_read_or_made() {
    assert_eq!(DEFAULT_CONFIG, ".clararc");
    assert_eq!(locate(None, true), Startup::Load { path: ".clararc" });
    assert_eq!(locate(None, false), Startup::Create { path: ".clararc" });
}

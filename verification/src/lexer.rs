//! The lexer of the startup file: from text to tokens.
//!
//! White space separates tokens and is otherwise ignored.  A name is read
//! as far as it goes, and is the keyword where it spells `export`.  A string
//! runs from a double quote to the next one, with no escapes; a quote that
//! is never closed is an error, as is any character that begins no token.

use crate::text::{
    chars_of, is_name_char, is_name_start, is_space, lemma_span, lemma_span_is, same_text, scan,
    span, starts_name, string_of, CharClass,
};
use crate::token::{statement_tokens, token_views, Token, TokenView};
use vstd::prelude::*;

verus! {

/// A token and the number of characters it is made of.
pub struct Lexeme {
    pub token: TokenView,
    pub len: nat,
}

/// What a name stands for: the keyword where it spells `export`, else an
/// identifier.
pub open spec fn word_token(word: Seq<char>) -> TokenView {
    if word == "export"@ {
        TokenView::Export
    } else {
        TokenView::Identifier(word)
    }
}

/// The token that `s` begins with, where `s` begins with a character that
/// is no white space.
pub open spec fn lexeme(s: Seq<char>) -> Lexeme {
    let body = span(s.skip(1), CharClass::Unquoted);
    if s[0] == '=' {
        Lexeme { token: TokenView::Assign, len: 1 }
    } else if is_name_start(s[0]) {
        let n = span(s, CharClass::Name);
        Lexeme { token: word_token(s.take(n as int)), len: n }
    } else if s[0] == '"' && body + 1 < s.len() {
        Lexeme { token: TokenView::StringLiteral(s.subrange(1, body as int + 1)), len: body + 2 }
    } else {
        Lexeme { token: TokenView::Error, len: 1 }
    }
}

/// A token is made of at least one character and of no more than there
/// are.
pub proof fn lemma_lexeme_len(s: Seq<char>)
    requires
        s.len() > 0,
    ensures
        1 <= lexeme(s).len <= s.len(),
{
    lemma_span(s, CharClass::Name);
}

/// The tokens of `s`, in the order of the text, errors included.
pub open spec fn lex(s: Seq<char>) -> Seq<TokenView>
    decreases s.len(),
{
    if s.len() == 0 {
        Seq::empty()
    } else if is_space(s[0]) {
        lex(s.skip(1))
    } else {
        proof {
            lemma_lexeme_len(s);
        }
        seq![lexeme(s).token] + lex(s.skip(lexeme(s).len as int))
    }
}

/// The tokens that count: all but the errors.
pub open spec fn significant(tokens: Seq<TokenView>) -> Seq<TokenView> {
    tokens.filter(|token: TokenView| !(token is Error))
}

/// No error is left among the tokens that count, and each of them is one
/// of the tokens read.
pub proof fn lemma_significant_has_no_error(tokens: Seq<TokenView>, i: int)
    requires
        0 <= i < significant(tokens).len(),
    ensures
        !(significant(tokens)[i] is Error),
        tokens.contains(significant(tokens)[i]),
{
    let keep = |token: TokenView| !(token is Error);
    tokens.lemma_filter_pred(keep, i);
    assert(tokens.filter(keep).contains(significant(tokens)[i]));
    tokens.lemma_filter_contains_rev(keep, significant(tokens)[i]);
}

/// Leading white space adds no token.
pub proof fn lemma_lex_skips_space(s: Seq<char>)
    ensures
        lex(s) == lex(s.skip(span(s, CharClass::Space) as int)),
    decreases s.len(),
{
    if s.len() > 0 && is_space(s[0]) {
        let t = s.skip(1);
        lemma_lex_skips_space(t);
        lemma_span(t, CharClass::Space);
        assert(t.skip(span(t, CharClass::Space) as int) == s.skip(span(s, CharClass::Space) as int));
    } else {
        assert(s.skip(0) == s);
    }
}

/// Whether `word` is a name: not empty, made of letters, digits and
/// underscores, and not starting with a digit.
pub open spec fn is_name(word: Seq<char>) -> bool {
    &&& word.len() > 0
    &&& is_name_start(word[0])
    &&& forall|i: int| 0 <= i < word.len() ==> is_name_char(#[trigger] word[i])
}

/// The text of the statement that binds `name` to `value`.
pub open spec fn statement(name: Seq<char>, value: Seq<char>) -> Seq<char> {
    "export "@ + name + "=\""@ + value + "\""@
}

/// A statement at the head of a text is read as its four tokens, whatever
/// follows it: the keyword, the name, the sign and the value without its
/// quotes.
pub proof fn lemma_lex_statement(name: Seq<char>, value: Seq<char>, rest: Seq<char>)
    requires
        is_name(name),
        name != "export"@,
        !value.contains('"'),
    ensures
        lex(statement(name, value) + rest) == statement_tokens(name, value) + lex(rest),
{
    reveal_strlit("export ");
    reveal_strlit("export");
    reveal_strlit("=\"");
    reveal_strlit("\"");
    let s = statement(name, value) + rest;
    // The keyword.
    lemma_span_is(s, CharClass::Name, 6);
    assert(s.take(6) == "export"@);
    lemma_lexeme_len(s);
    let s1 = s.skip(6);
    assert(lex(s) == seq![TokenView::Export] + lex(s1));
    // The space behind it.
    let s2 = s1.skip(1);
    assert(is_space(s1[0]));
    assert(lex(s1) == lex(s2));
    // The name.
    assert forall|i: int| 0 <= i < name.len() implies CharClass::Name.has(#[trigger] s2[i]) by {
        assert(s2[i] == name[i]);
    }
    assert(s2[name.len() as int] == '=');
    lemma_span_is(s2, CharClass::Name, name.len() as int);
    assert(s2.take(name.len() as int) == name);
    assert(s2[0] == name[0]);
    lemma_lexeme_len(s2);
    let s3 = s2.skip(name.len() as int);
    assert(lex(s2) == seq![TokenView::Identifier(name)] + lex(s3));
    // The sign.
    assert(s3[0] == '=');
    lemma_lexeme_len(s3);
    let s4 = s3.skip(1);
    assert(lex(s3) == seq![TokenView::Assign] + lex(s4));
    // The value between its quotes.
    assert(s4[0] == '"');
    let inner = s4.skip(1);
    assert forall|i: int| 0 <= i < value.len() implies CharClass::Unquoted.has(
        #[trigger] inner[i],
    ) by {
        assert(inner[i] == value[i]);
        assert(value.contains(value[i]));
    }
    assert(inner[value.len() as int] == '"');
    lemma_span_is(inner, CharClass::Unquoted, value.len() as int);
    assert(s4.subrange(1, value.len() as int + 1) == value);
    lemma_lexeme_len(s4);
    assert(s4.skip(value.len() as int + 2) == rest);
    assert(lex(s4) == seq![TokenView::StringLiteral(value)] + lex(rest));
    assert(seq![TokenView::Export] + (seq![TokenView::Identifier(name)] + (seq![
        TokenView::Assign,
    ] + (seq![TokenView::StringLiteral(value)] + lex(rest)))) == statement_tokens(name, value)
        + lex(rest));
}

/// Whether `text` is read the same whatever follows it: its tokens are
/// the first tokens of every text that begins with it, and what follows is
/// read as if it stood alone.
pub open spec fn is_self_contained(text: Seq<char>) -> bool {
    forall|rest: Seq<char>| #[trigger] lex(text + rest) == lex(text) + lex(rest)
}

/// A statement is self-contained.
pub proof fn lemma_statement_is_self_contained(name: Seq<char>, value: Seq<char>)
    requires
        is_name(name),
        name != "export"@,
        !value.contains('"'),
    ensures
        is_self_contained(statement(name, value)),
        lex(statement(name, value)) == statement_tokens(name, value),
{
    let text = statement(name, value);
    lemma_lex_statement(name, value, Seq::empty());
    assert(text + Seq::<char>::empty() == text);
    assert(statement_tokens(name, value) + Seq::<TokenView>::empty() == statement_tokens(
        name,
        value,
    ));
    assert forall|rest: Seq<char>| #[trigger] lex(text + rest) == lex(text) + lex(rest) by {
        lemma_lex_statement(name, value, rest);
    }
}

/// A line without double quote is read the same whatever follows its end.
proof fn lemma_lex_line(text: Seq<char>, rest: Seq<char>)
    requires
        !text.contains('"'),
    ensures
        lex(text + seq!['\n'] + rest) == lex(text + seq!['\n']) + lex(rest),
    decreases text.len(),
{
    let line = text + seq!['\n'];
    let all = line + rest;
    if text.len() == 0 {
        assert(all[0] == '\n' && line[0] == '\n');
        assert(all.skip(1) == rest);
        assert(line.skip(1) == Seq::<char>::empty());
        assert(lex(line.skip(1)) == Seq::<TokenView>::empty());
        assert(Seq::<TokenView>::empty() + lex(rest) == lex(rest));
    } else {
        let c = text[0];
        assert(all[0] == c && line[0] == c);
        assert(text.contains(c));
        lemma_lexeme_len(all);
        lemma_lexeme_len(line);
        let n: int = if !is_space(c) && is_name_start(c) {
            span(text, CharClass::Name) as int
        } else {
            1
        };
        lemma_span(text, CharClass::Name);
        if !is_space(c) && is_name_start(c) {
            assert forall|i: int| 0 <= i < n implies CharClass::Name.has(#[trigger] all[i])
                && CharClass::Name.has(#[trigger] line[i]) by {
                assert(all[i] == text[i] && line[i] == text[i]);
            }
            if n < text.len() {
                assert(all[n] == text[n] && line[n] == text[n]);
            } else {
                assert(all[n] == '\n' && line[n] == '\n');
            }
            lemma_span_is(all, CharClass::Name, n);
            lemma_span_is(line, CharClass::Name, n);
            assert(all.take(n) == text.take(n));
            assert(line.take(n) == text.take(n));
        }
        let tail = text.skip(n);
        assert forall|i: int| 0 <= i < tail.len() implies tail[i] != '"' by {
            assert(tail[i] == text[i + n]);
            assert(text.contains(text[i + n]));
        }
        assert(!tail.contains('"'));
        assert(all.skip(n) == tail + seq!['\n'] + rest);
        assert(line.skip(n) == tail + seq!['\n']);
        lemma_lex_line(tail, rest);
        assert(lex(all.skip(n)) == lex(line.skip(n)) + lex(rest));
        if is_space(c) {
            assert(lex(all) == lex(all.skip(1)));
            assert(lex(line) == lex(line.skip(1)));
        } else {
            assert(lexeme(all).len == n && lexeme(line).len == n);
            assert(lexeme(all).token == lexeme(line).token);
            assert(lex(all) == seq![lexeme(all).token] + lex(all.skip(n)));
            assert(lex(line) == seq![lexeme(line).token] + lex(line.skip(n)));
            assert(seq![lexeme(line).token] + (lex(line.skip(n)) + lex(rest)) == seq![
                lexeme(line).token,
            ] + lex(line.skip(n)) + lex(rest));
        }
    }
}

/// A line without double quote, with the line feed that ends it, is
/// self-contained.
pub proof fn lemma_line_is_self_contained(text: Seq<char>)
    requires
        !text.contains('"'),
    ensures
        is_self_contained(text + seq!['\n']),
{
    let line = text + seq!['\n'];
    assert forall|rest: Seq<char>| #[trigger] lex(line + rest) == lex(line) + lex(rest) by {
        lemma_lex_line(text, rest);
    }
}

/// Two self-contained texts in a row are self-contained, and their tokens
/// are those of the first followed by those of the second.
pub proof fn lemma_self_contained_concat(first: Seq<char>, second: Seq<char>)
    requires
        is_self_contained(first),
        is_self_contained(second),
    ensures
        is_self_contained(first + second),
        lex(first + second) == lex(first) + lex(second),
{
    let both = first + second;
    assert(lex(first + second) == lex(first) + lex(second));
    assert forall|rest: Seq<char>| #[trigger] lex(both + rest) == lex(both) + lex(rest) by {
        assert(both + rest == first + (second + rest));
        assert(lex(first + (second + rest)) == lex(first) + lex(second + rest));
        assert(lex(second + rest) == lex(second) + lex(rest));
        assert(lex(first) + (lex(second) + lex(rest)) == lex(first) + lex(second) + lex(rest));
    }
}

/// Whether `c` is noise: a character that is no white space and begins no
/// token.
pub open spec fn is_noise(c: char) -> bool {
    !is_space(c) && !is_name_start(c) && c != '=' && c != '"'
}

/// Noise gives no token that counts: a text reads the same with noise in
/// front of it as without.
pub proof fn lemma_noise_is_dropped(noise: Seq<char>, rest: Seq<char>)
    requires
        forall|i: int| 0 <= i < noise.len() ==> is_noise(#[trigger] noise[i]),
    ensures
        significant(lex(noise + rest)) == significant(lex(rest)),
    decreases noise.len(),
{
    if noise.len() == 0 {
        assert(noise + rest == rest);
    } else {
        let s = noise + rest;
        assert(s[0] == noise[0]);
        assert(is_noise(noise[0]));
        assert(s.skip(1) == noise.skip(1) + rest);
        assert forall|i: int| 0 <= i < noise.skip(1).len() implies is_noise(
            #[trigger] noise.skip(1)[i],
        ) by {
            assert(noise.skip(1)[i] == noise[i + 1]);
        }
        lemma_noise_is_dropped(noise.skip(1), rest);
        let keep = |token: TokenView| !(token is Error);
        assert(lex(s) == seq![TokenView::Error] + lex(s.skip(1)));
        Seq::filter_distributes_over_add(seq![TokenView::Error], lex(s.skip(1)), keep);
        assert(seq![TokenView::Error].filter(keep) == Seq::<TokenView>::empty()) by {
            reveal_with_fuel(Seq::filter, 2);
        }
        assert(Seq::<TokenView>::empty() + lex(s.skip(1)).filter(keep) == lex(s.skip(1)).filter(
            keep,
        ));
    }
}

/// A lexer over one text.
pub struct Lexer {
    chars: Vec<char>,
    position: usize,
}

impl Lexer {
    #[verifier::type_invariant]
    spec fn well_formed(self) -> bool {
        self.position <= self.chars.len()
    }

    /// The text that is still to be read.
    pub closed spec fn remaining(self) -> Seq<char> {
        self.chars@.skip(self.position as int)
    }

    /// A lexer at the start of `source`.
    pub fn new(source: &str) -> (lexer: Lexer)
        ensures
            lexer.remaining() == source@,
    {
        let chars = chars_of(source);
        assert(chars@.skip(0) == chars@);
        Lexer { chars, position: 0 }
    }

    /// Reads the next token, or tells that the text holds no more.
    pub fn next_token(&mut self) -> (token: Option<Token>)
        ensures
            match token {
                Some(t) => {
                    &&& lex(old(self).remaining()) == seq![t@] + lex(final(self).remaining())
                    &&& final(self).remaining().len() < old(self).remaining().len()
                },
                None => {
                    &&& lex(old(self).remaining()).len() == 0
                    &&& final(self).remaining().len() == 0
                },
            },
    {
        proof {
            use_type_invariant(&*self);
            lemma_lex_skips_space(self.remaining());
        }
        let n = self.chars.len();
        let ghost before = self.chars@.skip(self.position as int);
        assert(before == self.chars@.subrange(self.position as int, n as int));
        let start = scan(&self.chars, self.position, n, CharClass::Space);
        let ghost rest = self.chars@.skip(start as int);
        assert(rest == before.skip(span(before, CharClass::Space) as int));
        if start >= n {
            self.position = n;
            return None;
        }
        let c = self.chars[start];
        proof {
            lemma_span(before, CharClass::Space);
            assert(rest[0] == c);
            assert(!is_space(c));
            lemma_lexeme_len(rest);
            assert(rest == self.chars@.subrange(start as int, n as int));
            assert(rest.skip(1) == self.chars@.subrange(start + 1, n as int));
        }
        if c == '=' {
            self.position = start + 1;
            assert(self.chars@.skip(start + 1) == rest.skip(1));
            Some(Token::Assign)
        } else if starts_name(c) {
            let end = scan(&self.chars, start, n, CharClass::Name);
            let word = string_of(&self.chars, start, end);
            let keyword = same_text(word.as_str(), "export");
            self.position = end;
            proof {
                assert(word@ == rest.take(end - start));
                assert(self.chars@.skip(end as int) == rest.skip(end - start));
            }
            if keyword {
                Some(Token::Export)
            } else {
                Some(Token::Identifier(word))
            }
        } else if c == '"' {
            let close = scan(&self.chars, start + 1, n, CharClass::Unquoted);
            if close < n {
                let text = string_of(&self.chars, start + 1, close);
                self.position = close + 1;
                proof {
                    assert(text@ == rest.subrange(1, close - start));
                    assert(self.chars@.skip(close + 1) == rest.skip(close - start + 1));
                }
                Some(Token::StringLiteral(text))
            } else {
                self.position = start + 1;
                assert(self.chars@.skip(start + 1) == rest.skip(1));
                Some(Token::Error)
            }
        } else {
            self.position = start + 1;
            assert(self.chars@.skip(start + 1) == rest.skip(1));
            Some(Token::Error)
        }
    }
}

/// Reads every token of `source`, errors included.
pub fn lex_all(source: &str) -> (tokens: Vec<Token>)
    ensures
        token_views(tokens@) == lex(source@),
{
    let mut lexer = Lexer::new(source);
    let mut tokens: Vec<Token> = Vec::new();
    loop
        invariant
            lex(source@) == token_views(tokens@) + lex(lexer.remaining()),
        ensures
            token_views(tokens@) == lex(source@),
        decreases lexer.remaining().len(),
    {
        match lexer.next_token() {
            Some(token) => {
                assert(token_views(tokens@.push(token)) == token_views(tokens@) + seq![token@]);
                tokens.push(token);
            },
            None => {
                break ;
            },
        }
    }
    tokens
}

/// Leaves out the errors among `tokens`.
pub fn drop_errors(tokens: Vec<Token>) -> (kept: Vec<Token>)
    ensures
        token_views(kept@) == significant(token_views(tokens@)),
{
    let mut kept: Vec<Token> = Vec::new();
    let ghost all = token_views(tokens@);
    let ghost keep = |token: TokenView| !(token is Error);
    proof {
        reveal(Seq::filter);
        assert(all.take(0).filter(keep) == Seq::<TokenView>::empty());
    }
    for token in it: tokens
        invariant
            it.seq() == tokens@,
            all == token_views(tokens@),
            keep == |token: TokenView| !(token is Error),
            token_views(kept@) == all.take(it.index()).filter(keep),
    {
        proof {
            reveal(Seq::filter);
            assert(all.take(it.index() + 1).drop_last() == all.take(it.index()));
            assert(all.take(it.index() + 1).last() == token@);
        }
        if !token.is_error() {
            assert(token_views(kept@.push(token)) == token_views(kept@).push(token@));
            kept.push(token);
        }
    }
    assert(all.take(tokens@.len() as int) == all);
    kept
}

/// Reads the tokens of `source` that count: every token that is no error.
pub fn tokenize(source: &str) -> (tokens: Vec<Token>)
    ensures
        token_views(tokens@) == significant(lex(source@)),
{
    drop_errors(lex_all(source))
}

} // verus!

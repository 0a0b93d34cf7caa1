//! A single-pass tokenizer for a small statically-typed scripting language.
//!
//! The tokenizer scans the source text left to right, accumulating runs of
//! word characters and flushing them through a word classifier whenever a
//! fixed single-character symbol, a space, or the end of the input is
//! reached.  Word characters are the alphanumeric characters — in the ASCII
//! range exactly the letters and digits, beyond it whatever
//! `char::is_alphanumeric` admits; a non-empty word containing any other
//! character is silently dropped rather than rejected — a deliberate
//! drop-as-separator policy, so callers must not expect a diagnostic for
//! such runs.  The one lexical error is a program whose very first token
//! would be a bare identifier: every program must open with a keyword or a
//! symbol.

use vstd::prelude::*;

verus! {

/// The lexical error of the tokenizer.  `InvalidToken` is reported when the
/// first would-be token of the input is a bare identifier.
#[derive(Debug, PartialEq, Eq, Structural)]
pub enum LexerError {
    InvalidToken,
    StartedWithIdentifier,
}

/// One classified lexical unit of the source language.
#[derive(Debug, Clone, PartialEq)]
pub enum Token {
    Identifier(String),
    Type(String),
    TypeIndicator,
    RightBrace,
    LeftBrace,
    SemiColon,
    Equal,
    Let,
    Fn,
}

/// The mathematical value of a [`Token`]: the same variants, with the text
/// payloads abstracted to character sequences.
pub enum TokenView {
    Identifier(Seq<char>),
    Type(Seq<char>),
    TypeIndicator,
    RightBrace,
    LeftBrace,
    SemiColon,
    Equal,
    Let,
    Fn,
}

impl View for Token {
    type V = TokenView;

    open spec fn view(&self) -> TokenView {
        match self {
            Token::Identifier(s) => TokenView::Identifier(s@),
            Token::Type(s) => TokenView::Type(s@),
            Token::TypeIndicator => TokenView::TypeIndicator,
            Token::RightBrace => TokenView::RightBrace,
            Token::LeftBrace => TokenView::LeftBrace,
            Token::SemiColon => TokenView::SemiColon,
            Token::Equal => TokenView::Equal,
            Token::Let => TokenView::Let,
            Token::Fn => TokenView::Fn,
        }
    }
}

/// The views of a sequence of tokens.
pub open spec fn token_views(ts: Seq<Token>) -> Seq<TokenView> {
    ts.map_values(|t: Token| t@)
}

/// The view of the classifier's result.
pub open spec fn opt_token_view(r: Option<Token>) -> Option<TokenView> {
    match r {
        Option::Some(t) => Option::Some(t@),
        Option::None => Option::None,
    }
}

/// The view of a whole lexing result.
pub open spec fn lex_result_view(r: Result<Vec<Token>, LexerError>) -> Result<
    Seq<TokenView>,
    LexerError,
> {
    match r {
        Result::Ok(ts) => Result::Ok(token_views(ts@)),
        Result::Err(e) => Result::Err(e),
    }
}

/// What `char::is_alphanumeric` returns beyond the ASCII range: a function
/// of the character alone, left without an interpretation here.
pub uninterp spec fn alphanumeric_of(c: char) -> bool;

/// A word character in the ASCII range: a letter or a digit.
pub open spec fn is_ascii_word_char(c: char) -> bool {
    let u = c as u32;
    (('a' as u32) <= u && u <= ('z' as u32)) || (('A' as u32) <= u && u <= ('Z' as u32)) || ((
    '0' as u32) <= u && u <= ('9' as u32))
}

/// A word character: an alphanumeric character.  In the ASCII range these
/// are exactly the letters and digits; beyond it the class is
/// [`alphanumeric_of`], the behaviour of `char::is_alphanumeric`.  A
/// non-empty word made only of word characters classifies as a keyword, a
/// type name, or an identifier; any other non-empty word is dropped.
pub open spec fn is_word_char(c: char) -> bool {
    if (c as u32) < 128 {
        is_ascii_word_char(c)
    } else {
        alphanumeric_of(c)
    }
}

/// The fixed single-character symbols; each terminates any pending word.
pub open spec fn is_symbol_char(c: char) -> bool {
    c == '=' || c == '{' || c == '}' || c == ':' || c == ';'
}

/// A word boundary in the scan: a symbol or a space.
pub open spec fn is_boundary_char(c: char) -> bool {
    is_symbol_char(c) || c == ' '
}

/// The fixed token of a symbol character.
pub open spec fn symbol_token_view(c: char) -> TokenView
    recommends
        is_symbol_char(c),
{
    if c == '=' {
        TokenView::Equal
    } else if c == '{' {
        TokenView::LeftBrace
    } else if c == '}' {
        TokenView::RightBrace
    } else if c == ':' {
        TokenView::TypeIndicator
    } else {
        TokenView::SemiColon
    }
}

/// The `fn` keyword.
pub open spec fn kw_fn() -> Seq<char> {
    seq!['f', 'n']
}

/// The `let` keyword.
pub open spec fn kw_let() -> Seq<char> {
    seq!['l', 'e', 't']
}

/// The built-in type name `String`.
pub open spec fn type_name_string() -> Seq<char> {
    seq!['S', 't', 'r', 'i', 'n', 'g']
}

/// The built-in type name `Int`.
pub open spec fn type_name_int() -> Seq<char> {
    seq!['I', 'n', 't']
}

/// The built-in type name `Bool`.
pub open spec fn type_name_bool() -> Seq<char> {
    seq!['B', 'o', 'o', 'l']
}

/// The built-in type name `Char`.
pub open spec fn type_name_char() -> Seq<char> {
    seq!['C', 'h', 'a', 'r']
}

/// Whether a word is one of the four built-in type names.
pub open spec fn is_type_name(w: Seq<char>) -> bool {
    w == type_name_string() || w == type_name_int() || w == type_name_bool() || w
        == type_name_char()
}

/// The word classifier: keywords and type names first, then the empty word
/// (no token), then identifiers (words made only of word characters); any
/// other word yields no token.
pub open spec fn spec_classify(w: Seq<char>) -> Option<TokenView> {
    if w == kw_fn() {
        Option::Some(TokenView::Fn)
    } else if w == kw_let() {
        Option::Some(TokenView::Let)
    } else if is_type_name(w) {
        Option::Some(TokenView::Type(w))
    } else if w.len() == 0 {
        Option::None
    } else if forall|k: int| 0 <= k < w.len() ==> is_word_char(w[k]) {
        Option::Some(TokenView::Identifier(w))
    } else {
        Option::None
    }
}

/// Flushing the pending word into the output: classify it, reject a leading
/// identifier, and otherwise append the classified token, if any.
pub open spec fn spec_flush(word: Seq<char>, out: Seq<TokenView>) -> Result<
    Seq<TokenView>,
    LexerError,
> {
    match spec_classify(word) {
        Option::Some(t) => if t is Identifier && out.len() == 0 {
            Result::Err(LexerError::InvalidToken)
        } else {
            Result::Ok(out.push(t))
        },
        Option::None => Result::Ok(out),
    }
}

/// One scan of the remaining input, given the pending word and the tokens
/// already emitted.  A symbol flushes the pending word and then emits its own
/// fixed token; a space flushes the pending word; any other character joins
/// the word; the end of the input flushes once more.
pub open spec fn lex_rec(rest: Seq<char>, word: Seq<char>, out: Seq<TokenView>) -> Result<
    Seq<TokenView>,
    LexerError,
>
    decreases rest.len(),
{
    if rest.len() == 0 {
        spec_flush(word, out)
    } else {
        let c = rest[0];
        if is_symbol_char(c) {
            match spec_flush(word, out) {
                Result::Ok(out2) => lex_rec(
                    rest.drop_first(),
                    Seq::empty(),
                    out2.push(symbol_token_view(c)),
                ),
                Result::Err(e) => Result::Err(e),
            }
        } else if c == ' ' {
            match spec_flush(word, out) {
                Result::Ok(out2) => lex_rec(rest.drop_first(), Seq::empty(), out2),
                Result::Err(e) => Result::Err(e),
            }
        } else {
            lex_rec(rest.drop_first(), word.push(c), out)
        }
    }
}

/// The tokenization of a whole input: the scan started with an empty word and
/// an empty output.
pub open spec fn spec_lex(s: Seq<char>) -> Result<Seq<TokenView>, LexerError> {
    lex_rec(s, Seq::empty(), Seq::empty())
}

impl LexerError {
    /// The fixed human-readable message of this error.
    pub fn message(&self) -> (r: &'static str)
        ensures
            self is InvalidToken ==> r@ == "invalid token"@,
            self is StartedWithIdentifier ==> r@ == "cannot start with an identifier"@,
    {
        match self {
            LexerError::InvalidToken => "invalid token",
            LexerError::StartedWithIdentifier => "cannot start with an identifier",
        }
    }
}

/// Relies on char::is_alphanumeric: its result depends on the character
/// alone, and in the ASCII range the alphanumeric characters are exactly the
/// letters and digits.
#[verifier::external_body]
fn char_is_alphanumeric(c: char) -> (r: bool)
    ensures
        (c as u32) < 128 ==> r == is_ascii_word_char(c),
        (c as u32) >= 128 ==> r == alphanumeric_of(c),
{
    c.is_alphanumeric()
}

/// Whether a character is a word character.
fn word_char(c: char) -> (r: bool)
    ensures
        r == is_word_char(c),
{
    char_is_alphanumeric(c)
}

/// Character-for-character string equality, decided over the views.
fn str_eq(a: &str, b: &str) -> (r: bool)
    ensures
        r == (a@ == b@),
{
    let na = a.unicode_len();
    let nb = b.unicode_len();
    if na != nb {
        return false;
    }
    let mut i: usize = 0;
    while i < na
        invariant
            i <= na,
            na == a@.len(),
            na == b@.len(),
            forall|k: int| 0 <= k < i ==> a@[k] == b@[k],
        decreases na - i,
    {
        if a.get_char(i) != b.get_char(i) {
            return false;
        }
        i = i + 1;
    }
    proof {
        assert(a@ =~= b@);
    }
    true
}

/// The word classifier: `fn` and `let` are keywords, `String`, `Int`,
/// `Bool` and `Char` are type names, any other non-empty word made only of
/// word characters is an identifier, and every remaining word — the empty
/// word between separators, or a word with a stray character — yields no
/// token.
pub fn parse_token(word: String) -> (r: Option<Token>)
    ensures
        opt_token_view(r) == spec_classify(word@),
{
    proof {
        reveal_strlit("fn");
        reveal_strlit("let");
        reveal_strlit("String");
        reveal_strlit("Int");
        reveal_strlit("Bool");
        reveal_strlit("Char");
        assert("fn"@ =~= kw_fn());
        assert("let"@ =~= kw_let());
        assert("String"@ =~= type_name_string());
        assert("Int"@ =~= type_name_int());
        assert("Bool"@ =~= type_name_bool());
        assert("Char"@ =~= type_name_char());
    }
    let w: &str = word.as_str();
    if str_eq(w, "fn") {
        Option::Some(Token::Fn)
    } else if str_eq(w, "let") {
        Option::Some(Token::Let)
    } else if str_eq(w, "String") || str_eq(w, "Int") || str_eq(w, "Bool") || str_eq(w, "Char") {
        Option::Some(Token::Type(word))
    } else if w.is_empty() {
        Option::None
    } else if all_word_chars(w) {
        Option::Some(Token::Identifier(word))
    } else {
        Option::None
    }
}

/// Whether every character of a string is a word character.
fn all_word_chars(w: &str) -> (r: bool)
    ensures
        r == (forall|k: int| 0 <= k < w@.len() ==> is_word_char(w@[k])),
{
    let n = w.unicode_len();
    let mut i: usize = 0;
    while i < n
        invariant
            i <= n,
            n == w@.len(),
            forall|k: int| 0 <= k < i ==> is_word_char(w@[k]),
        decreases n - i,
    {
        if !word_char(w.get_char(i)) {
            return false;
        }
        i = i + 1;
    }
    true
}

/// Mapping the views over a token sequence commutes with appending.
proof fn lemma_token_views_push(ts: Seq<Token>, t: Token)
    ensures
        token_views(ts.push(t)) == token_views(ts).push(t@),
{
    assert(token_views(ts.push(t)) =~= token_views(ts).push(t@));
}

/// Classify the pending word and append the resulting token, if any, to the
/// output; reject an identifier that would become the very first token.
fn flush_word(word: &str, tokens: &mut Vec<Token>) -> (r: Result<(), LexerError>)
    ensures
        match spec_flush(word@, token_views(old(tokens)@)) {
            Result::Ok(out2) => r is Ok && token_views(final(tokens)@) == out2,
            Result::Err(e) => r == Result::<(), LexerError>::Err(e) && final(tokens)@ == old(
                tokens,
            )@,
        },
{
    match parse_token(word.to_owned()) {
        Option::None => Result::Ok(()),
        Option::Some(tok) => {
            let is_ident = match &tok {
                Token::Identifier(_) => true,
                _ => false,
            };
            if is_ident && tokens.len() == 0 {
                Result::Err(LexerError::InvalidToken)
            } else {
                proof {
                    lemma_token_views_push(tokens@, tok);
                }
                tokens.push(tok);
                Result::Ok(())
            }
        },
    }
}

/// Tokenize a whole source text in one left-to-right scan.
///
/// The result is exactly the one that [`spec_lex`] gives for the view of the
/// input: either the complete token sequence, in source order, or the single
/// lexical error, raised exactly when the first would-be token is a bare
/// identifier.  No partial sequence accompanies an error, and the scan reads
/// nothing but its argument.
pub fn lex(code: &str) -> (r: Result<Vec<Token>, LexerError>)
    ensures
        lex_result_view(r) == spec_lex(code@),
{
    let n = code.unicode_len();
    let mut tokens: Vec<Token> = Vec::new();
    let mut start: usize = 0;
    let mut i: usize = 0;
    proof {
        assert(code@.subrange(0, n as int) =~= code@);
        assert(code@.subrange(0, 0) =~= Seq::<char>::empty());
        assert(token_views(tokens@) =~= Seq::<TokenView>::empty());
    }
    while i < n
        invariant
            start <= i <= n,
            n == code@.len(),
            lex_rec(
                code@.subrange(i as int, n as int),
                code@.subrange(start as int, i as int),
                token_views(tokens@),
            ) == spec_lex(code@),
        decreases n - i,
    {
        let c = code.get_char(i);
        proof {
            assert(code@.subrange(i as int, n as int)[0] == code@[i as int]);
            assert(code@.subrange(i as int, n as int).drop_first() =~= code@.subrange(
                i as int + 1,
                n as int,
            ));
        }
        match symbol_token(c) {
            Option::Some(sym) => {
                let w = code.substring_char(start, i);
                match flush_word(w, &mut tokens) {
                    Result::Err(e) => {
                        return Result::Err(e);
                    },
                    Result::Ok(()) => {},
                }
                proof {
                    lemma_token_views_push(tokens@, sym);
                    assert(code@.subrange(i as int + 1, i as int + 1) =~= Seq::<char>::empty());
                }
                tokens.push(sym);
                start = i + 1;
            },
            Option::None => {
                if c == ' ' {
                    let w = code.substring_char(start, i);
                    match flush_word(w, &mut tokens) {
                        Result::Err(e) => {
                            return Result::Err(e);
                        },
                        Result::Ok(()) => {},
                    }
                    proof {
                        assert(code@.subrange(i as int + 1, i as int + 1)
                            =~= Seq::<char>::empty());
                    }
                    start = i + 1;
                } else {
                    proof {
                        assert(code@.subrange(start as int, i as int).push(code@[i as int])
                            =~= code@.subrange(start as int, i as int + 1));
                    }
                }
            },
        }
        i = i + 1;
    }
    proof {
        assert(code@.subrange(n as int, n as int) =~= Seq::<char>::empty());
    }
    let w = code.substring_char(start, n);
    match flush_word(w, &mut tokens) {
        Result::Err(e) => Result::Err(e),
        Result::Ok(()) => Result::Ok(tokens),
    }
}

/// The fixed token of a symbol character, or nothing for any other character.
fn symbol_token(c: char) -> (r: Option<Token>)
    ensures
        match r {
            Option::Some(t) => is_symbol_char(c) && t@ == symbol_token_view(c),
            Option::None => !is_symbol_char(c),
        },
{
    match c {
        '=' => Option::Some(Token::Equal),
        '{' => Option::Some(Token::LeftBrace),
        '}' => Option::Some(Token::RightBrace),
        ':' => Option::Some(Token::TypeIndicator),
        ';' => Option::Some(Token::SemiColon),
        _ => Option::None,
    }
}

} // verus!

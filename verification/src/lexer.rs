//! The lexer: raw text to tokens. Whitespace is skipped, the four
//! punctuation marks and the two abstraction markers become their tokens, a
//! maximal run of word characters becomes one identifier, and any other
//! character is silently skipped. Total: the lexer never fails.

use vstd::prelude::*;

verus! {

/// What `char::is_whitespace` returns for a character.
pub uninterp spec fn spec_is_whitespace(c: char) -> bool;

/// What `char::is_alphanumeric` returns for a character.
pub uninterp spec fn spec_is_alphanumeric(c: char) -> bool;

/// Relies on char::is_whitespace: whether the character has the Unicode
/// white-space property, a function of the character alone.
#[verifier::external_body]
fn char_is_whitespace(c: char) -> (b: bool)
    ensures
        b == spec_is_whitespace(c),
{
    c.is_whitespace()
}

/// Relies on char::is_alphanumeric: whether the character is a Unicode
/// letter or number, a function of the character alone.
#[verifier::external_body]
fn char_is_alphanumeric(c: char) -> (b: bool)
    ensures
        b == spec_is_alphanumeric(c),
{
    c.is_alphanumeric()
}

/// A character that may stand in an identifier.
pub open spec fn is_word_char(c: char) -> bool {
    spec_is_alphanumeric(c) || c == '_'
}

fn word_char(c: char) -> (b: bool)
    ensures
        b == is_word_char(c),
{
    char_is_alphanumeric(c) || c == '_'
}

/// Mathematical model of a token.
pub enum SpecToken {
    Lambda,
    Dot,
    LParen,
    RParen,
    Identifier(Seq<char>),
}

/// A token of the surface syntax.
pub enum Token {
    Lambda,
    Dot,
    LParen,
    RParen,
    Identifier(Vec<char>),
}

impl View for Token {
    type V = SpecToken;

    open spec fn view(&self) -> SpecToken {
        match self {
            Token::Lambda => SpecToken::Lambda,
            Token::Dot => SpecToken::Dot,
            Token::LParen => SpecToken::LParen,
            Token::RParen => SpecToken::RParen,
            Token::Identifier(name) => SpecToken::Identifier(name@),
        }
    }
}

/// A token and its model are always the same kind of token.
pub proof fn lemma_token_view_variant(t: Token)
    ensures
        t@ is Identifier <==> t is Identifier,
        t@ is Lambda <==> t is Lambda,
        t@ is Dot <==> t is Dot,
        t@ is LParen <==> t is LParen,
        t@ is RParen <==> t is RParen,
{
    match t {
        Token::Lambda => {},
        Token::Dot => {},
        Token::LParen => {},
        Token::RParen => {},
        Token::Identifier(_) => {},
    }
}

/// The models of a sequence of tokens.
pub open spec fn toks_view(s: Seq<Token>) -> Seq<SpecToken> {
    s.map_values(|t: Token| t@)
}

/// The lexer as a character-by-character state machine; `cur` is the
/// identifier run being collected, if any. While a run is open, any word
/// character extends it and anything else closes it; outside a run,
/// whitespace is skipped, the punctuation marks and abstraction markers
/// (checked before the word characters, so `λ` is a marker, not a letter)
/// yield their tokens, a word character opens a run, and any other
/// character is skipped.
pub open spec fn spec_lex(s: Seq<char>, cur: Option<Seq<char>>) -> Seq<SpecToken>
    decreases s.len(), (if cur is Some { 1nat } else { 0nat }),
{
    if s.len() == 0 {
        match cur {
            Some(id) => seq![SpecToken::Identifier(id)],
            None => Seq::empty(),
        }
    } else {
        let c = s[0];
        match cur {
            Some(id) => {
                if is_word_char(c) {
                    spec_lex(s.drop_first(), Some(id.push(c)))
                } else {
                    seq![SpecToken::Identifier(id)] + spec_lex(s, None)
                }
            },
            None => {
                if spec_is_whitespace(c) {
                    spec_lex(s.drop_first(), None)
                } else if c == '(' {
                    seq![SpecToken::LParen] + spec_lex(s.drop_first(), None)
                } else if c == ')' {
                    seq![SpecToken::RParen] + spec_lex(s.drop_first(), None)
                } else if c == '.' {
                    seq![SpecToken::Dot] + spec_lex(s.drop_first(), None)
                } else if c == '\\' || c == 'λ' {
                    seq![SpecToken::Lambda] + spec_lex(s.drop_first(), None)
                } else if is_word_char(c) {
                    spec_lex(s.drop_first(), Some(seq![c]))
                } else {
                    spec_lex(s.drop_first(), None)
                }
            },
        }
    }
}

/// The tokens of a piece of text.
pub open spec fn spec_tokenize(s: Seq<char>) -> Seq<SpecToken> {
    spec_lex(s, None)
}

/// The lexer on character vectors: the resulting tokens model
/// `spec_tokenize` of the input exactly.
pub fn tokenize(input: &Vec<char>) -> (r: Vec<Token>)
    ensures
        toks_view(r@) == spec_tokenize(input@),
{
    let mut tokens: Vec<Token> = Vec::new();
    let mut i: usize = 0;
    let mut has_ident: bool = false;
    let mut ident: Vec<char> = Vec::new();
    proof {
        assert(input@.skip(0) =~= input@);
        assert(toks_view(tokens@) + spec_lex(input@, None) =~= spec_tokenize(input@));
    }
    while i < input.len() || has_ident
        invariant
            i <= input.len(),
            !has_ident ==> ident@ =~= Seq::<char>::empty(),
            toks_view(tokens@) + spec_lex(
                input@.skip(i as int),
                if has_ident {
                    Some(ident@)
                } else {
                    None
                },
            ) == spec_tokenize(input@),
        decreases input.len() - i, (if has_ident { 1int } else { 0int }),
    {
        let ghost rest = input@.skip(i as int);
        proof {
            if i < input.len() {
                assert(rest[0] == input@[i as int]);
                assert(rest.drop_first() =~= input@.skip(i + 1));
            }
        }
        if has_ident {
            if i < input.len() && word_char(input[i]) {
                ident.push(input[i]);
                i += 1;
            } else {
                let finished = ident;
                ident = Vec::new();
                has_ident = false;
                let ghost prev = toks_view(tokens@);
                tokens.push(Token::Identifier(finished));
                proof {
                    assert(toks_view(tokens@) =~= prev.push(SpecToken::Identifier(finished@)));
                    if i < input.len() {
                        assert(spec_lex(rest, Some(finished@)) == seq![
                            SpecToken::Identifier(finished@),
                        ] + spec_lex(rest, None));
                    }
                    assert(toks_view(tokens@) + spec_lex(rest, None) =~= prev + spec_lex(
                        rest,
                        Some(finished@),
                    ));
                }
            }
        } else {
            let c = input[i];
            if char_is_whitespace(c) {
                i += 1;
            } else if c == '(' {
                let ghost prev = toks_view(tokens@);
                tokens.push(Token::LParen);
                proof {
                    assert(toks_view(tokens@) =~= prev.push(SpecToken::LParen));
                    assert(toks_view(tokens@) + spec_lex(rest.drop_first(), None) =~= prev
                        + spec_lex(rest, None));
                }
                i += 1;
            } else if c == ')' {
                let ghost prev = toks_view(tokens@);
                tokens.push(Token::RParen);
                proof {
                    assert(toks_view(tokens@) =~= prev.push(SpecToken::RParen));
                    assert(toks_view(tokens@) + spec_lex(rest.drop_first(), None) =~= prev
                        + spec_lex(rest, None));
                }
                i += 1;
            } else if c == '.' {
                let ghost prev = toks_view(tokens@);
                tokens.push(Token::Dot);
                proof {
                    assert(toks_view(tokens@) =~= prev.push(SpecToken::Dot));
                    assert(toks_view(tokens@) + spec_lex(rest.drop_first(), None) =~= prev
                        + spec_lex(rest, None));
                }
                i += 1;
            } else if c == '\\' || c == 'λ' {
                let ghost prev = toks_view(tokens@);
                tokens.push(Token::Lambda);
                proof {
                    assert(toks_view(tokens@) =~= prev.push(SpecToken::Lambda));
                    assert(toks_view(tokens@) + spec_lex(rest.drop_first(), None) =~= prev
                        + spec_lex(rest, None));
                }
                i += 1;
            } else if word_char(c) {
                ident.push(c);
                has_ident = true;
                proof {
                    assert(ident@ =~= seq![c]);
                }
                i += 1;
            } else {
                i += 1;
            }
        }
    }
    proof {
        assert(input@.skip(input@.len() as int) =~= Seq::<char>::empty());
        assert(toks_view(tokens@) =~= toks_view(tokens@) + spec_lex(
            Seq::<char>::empty(),
            None,
        ));
    }
    tokens
}

} // verus!

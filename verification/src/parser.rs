//! The recursive-descent parser, for the two-production grammar: an
//! application is one or more factors folded to the left, and a factor is
//! an identifier, an abstraction `λx. application`, or a parenthesized
//! application. An abstraction's body extends as far right as possible.

use vstd::prelude::*;
use crate::term::{Term, SpecTerm};
use crate::lexer::{Token, SpecToken, toks_view, lemma_token_view_variant};

verus! {

pub open spec fn msg_unexpected_end() -> Seq<char> {
    "Unexpected end of input"@
}

pub open spec fn msg_expected_ident() -> Seq<char> {
    "Expected identifier after lambda"@
}

pub open spec fn msg_expected_dot() -> Seq<char> {
    "Expected '.' after lambda parameter"@
}

pub open spec fn msg_expected_rparen() -> Seq<char> {
    "Expected ')'"@
}

/// The message naming the token that no factor can start with.
pub open spec fn msg_unexpected_token(t: SpecToken) -> Seq<char> {
    match t {
        SpecToken::Lambda => "Unexpected token: Lambda"@,
        SpecToken::Dot => "Unexpected token: Dot"@,
        SpecToken::LParen => "Unexpected token: LParen"@,
        SpecToken::RParen => "Unexpected token: RParen"@,
        SpecToken::Identifier(n) => "Unexpected token: Identifier(\""@ + n + "\")"@,
    }
}

/// The tokens a factor can start with.
pub open spec fn factor_start(t: SpecToken) -> bool {
    t is Identifier || t is Lambda || t is LParen
}

/// Parsing one factor at `pos`: the parsed term and the position after it,
/// or the error message. The recursion in `spec_parse_app_loop` is guarded
/// by a progress test that always holds (`lemma_parse_advances`) and only
/// justifies termination.
pub open spec fn spec_parse_factor(toks: Seq<SpecToken>, pos: nat) -> Result<
    (SpecTerm, nat),
    Seq<char>,
>
    decreases toks.len() - pos, 0int,
{
    if pos >= toks.len() {
        Err(msg_unexpected_end())
    } else {
        match toks[pos as int] {
            SpecToken::Identifier(name) => Ok((SpecTerm::Var { name }, (pos + 1) as nat)),
            SpecToken::Lambda => {
                if pos + 1 >= toks.len() || !(toks[pos as int + 1] is Identifier) {
                    Err(msg_expected_ident())
                } else if pos + 2 >= toks.len() || !(toks[pos as int + 2] is Dot) {
                    Err(msg_expected_dot())
                } else {
                    match toks[pos as int + 1] {
                        SpecToken::Identifier(param) => {
                            match spec_parse_app(toks, (pos + 3) as nat) {
                                Ok(tp) => Ok(
                                    (SpecTerm::Lam { param, body: Box::new(tp.0) }, tp.1),
                                ),
                                Err(e) => Err(e),
                            }
                        },
                        _ => Err(msg_expected_ident()),
                    }
                }
            },
            SpecToken::LParen => {
                match spec_parse_app(toks, (pos + 1) as nat) {
                    Ok(tp) => {
                        if tp.1 < toks.len() && toks[tp.1 as int] is RParen {
                            Ok((tp.0, (tp.1 + 1) as nat))
                        } else {
                            Err(msg_expected_rparen())
                        }
                    },
                    Err(e) => Err(e),
                }
            },
            SpecToken::Dot => Err(msg_unexpected_token(SpecToken::Dot)),
            SpecToken::RParen => Err(msg_unexpected_token(SpecToken::RParen)),
        }
    }
}

/// Folding further factors to the left into `acc`, while a factor can
/// start; stops before any other token, which is left unconsumed.
pub open spec fn spec_parse_app_loop(toks: Seq<SpecToken>, pos: nat, acc: SpecTerm) -> Result<
    (SpecTerm, nat),
    Seq<char>,
>
    decreases toks.len() - pos, 1int,
{
    if pos < toks.len() && factor_start(toks[pos as int]) {
        match spec_parse_factor(toks, pos) {
            Ok(tp) => {
                if pos < tp.1 <= toks.len() {
                    spec_parse_app_loop(
                        toks,
                        tp.1,
                        SpecTerm::App { func: Box::new(acc), arg: Box::new(tp.0) },
                    )
                } else {
                    Ok((acc, pos))
                }
            },
            Err(e) => Err(e),
        }
    } else {
        Ok((acc, pos))
    }
}

/// Parsing an application at `pos`: one factor, then the left fold.
pub open spec fn spec_parse_app(toks: Seq<SpecToken>, pos: nat) -> Result<
    (SpecTerm, nat),
    Seq<char>,
>
    decreases toks.len() - pos, 2int,
{
    match spec_parse_factor(toks, pos) {
        Ok(tp) => {
            if pos < tp.1 <= toks.len() {
                spec_parse_app_loop(toks, tp.1, tp.0)
            } else {
                Ok(tp)
            }
        },
        Err(e) => Err(e),
    }
}

/// Parsing a whole token sequence: an application from the start; tokens
/// after it that no factor can start with are ignored.
pub open spec fn spec_parse(toks: Seq<SpecToken>) -> Result<SpecTerm, Seq<char>> {
    match spec_parse_app(toks, 0) {
        Ok(tp) => Ok(tp.0),
        Err(e) => Err(e),
    }
}

/// A successful parse consumes at least one token and never runs past the
/// end, so the progress guards in the definitions above always hold.
pub proof fn lemma_factor_advances(toks: Seq<SpecToken>, pos: nat)
    ensures
        spec_parse_factor(toks, pos) matches Ok(tp) ==> pos < tp.1 <= toks.len(),
    decreases toks.len() - pos, 0int,
{
    if pos < toks.len() {
        match toks[pos as int] {
            SpecToken::Lambda => {
                if pos + 2 < toks.len() && toks[pos as int + 1] is Identifier && toks[pos as int
                    + 2] is Dot {
                    lemma_app_advances(toks, (pos + 3) as nat);
                }
            },
            SpecToken::LParen => {
                lemma_app_advances(toks, (pos + 1) as nat);
            },
            _ => {},
        }
    }
}

pub proof fn lemma_loop_advances(toks: Seq<SpecToken>, pos: nat, acc: SpecTerm)
    ensures
        spec_parse_app_loop(toks, pos, acc) matches Ok(tp) ==> pos <= tp.1 <= toks.len()
            || pos > toks.len(),
    decreases toks.len() - pos, 1int,
{
    if pos < toks.len() && factor_start(toks[pos as int]) {
        lemma_factor_advances(toks, pos);
        match spec_parse_factor(toks, pos) {
            Ok(tp) => {
                lemma_loop_advances(
                    toks,
                    tp.1,
                    SpecTerm::App { func: Box::new(acc), arg: Box::new(tp.0) },
                );
            },
            Err(_) => {},
        }
    }
}

pub proof fn lemma_app_advances(toks: Seq<SpecToken>, pos: nat)
    ensures
        spec_parse_app(toks, pos) matches Ok(tp) ==> pos < tp.1 <= toks.len(),
    decreases toks.len() - pos, 2int,
{
    lemma_factor_advances(toks, pos);
    match spec_parse_factor(toks, pos) {
        Ok(tp) => {
            lemma_loop_advances(toks, tp.1, tp.0);
        },
        Err(_) => {},
    }
}

/// The name of an identifier token.
fn ident_name(t: &Token) -> (r: Vec<char>)
    requires
        t@ is Identifier,
    ensures
        t@ == SpecToken::Identifier(r@),
{
    proof {
        lemma_token_view_variant(*t);
    }
    match t {
        Token::Identifier(n) => crate::term::copy_name(n),
        _ => {
            proof {
                assert(false);
            }
            Vec::new()
        },
    }
}

/// Whether a factor can start with this token.
fn is_factor_start(t: &Token) -> (r: bool)
    ensures
        r == factor_start(t@),
{
    match t {
        Token::Identifier(_) => true,
        Token::Lambda => true,
        Token::LParen => true,
        _ => false,
    }
}

/// The parser's cursor over the token sequence.
pub struct Parser {
    pub tokens: Vec<Token>,
    pub pos: usize,
}

impl Parser {
    pub fn new(tokens: Vec<Token>) -> (p: Parser)
        ensures
            p.tokens@ == tokens@,
            p.pos == 0,
    {
        Parser { tokens, pos: 0 }
    }

    /// Parse a factor: a variable, a lambda abstraction, or a
    /// parenthesized expression.
    pub fn parse_factor(&mut self) -> (r: Result<Term, String>)
        requires
            old(self).pos <= old(self).tokens@.len(),
        ensures
            final(self).tokens@ == old(self).tokens@,
            final(self).pos <= old(self).tokens@.len(),
            match spec_parse_factor(toks_view(old(self).tokens@), old(self).pos as nat) {
                Ok(tp) => r matches Ok(t) && t@ == tp.0 && final(self).pos == tp.1,
                Err(m) => r matches Err(e) && e@ == m,
            },
        decreases old(self).tokens@.len() - old(self).pos, 0int,
    {
        let ghost toks = toks_view(self.tokens@);
        let cur = self.pos;
        if cur >= self.tokens.len() {
            return Err("Unexpected end of input".to_owned());
        }
        proof {
            lemma_token_view_variant(self.tokens@[cur as int]);
            assert(toks[cur as int] == self.tokens@[cur as int]@);
        }
        if matches!(&self.tokens[cur], Token::Identifier(_)) {
            let name = ident_name(&self.tokens[cur]);
            self.pos = cur + 1;
            Ok(Term::Var { name })
        } else if matches!(&self.tokens[cur], Token::Lambda) {
            if cur + 1 >= self.tokens.len()
                || !matches!(&self.tokens[cur + 1], Token::Identifier(_)) {
                proof {
                    if cur + 1 < self.tokens@.len() {
                        lemma_token_view_variant(self.tokens@[cur as int + 1]);
                    }
                }
                return Err("Expected identifier after lambda".to_owned());
            }
            proof {
                lemma_token_view_variant(self.tokens@[cur as int + 1]);
            }
            let param = ident_name(&self.tokens[cur + 1]);
            if cur + 2 >= self.tokens.len() || !matches!(&self.tokens[cur + 2], Token::Dot) {
                proof {
                    if cur + 2 < self.tokens@.len() {
                        lemma_token_view_variant(self.tokens@[cur as int + 2]);
                    }
                }
                return Err("Expected '.' after lambda parameter".to_owned());
            }
            proof {
                lemma_token_view_variant(self.tokens@[cur as int + 2]);
            }
            self.pos = cur + 3;
            match self.parse_application() {
                Ok(body) => Ok(Term::Lam { param, body: Box::new(body) }),
                Err(e) => Err(e),
            }
        } else if matches!(&self.tokens[cur], Token::LParen) {
            self.pos = cur + 1;
            match self.parse_application() {
                Ok(inner) => {
                    if self.pos < self.tokens.len()
                        && matches!(&self.tokens[self.pos], Token::RParen) {
                        proof {
                            lemma_token_view_variant(self.tokens@[self.pos as int]);
                        }
                        self.pos = self.pos + 1;
                        Ok(inner)
                    } else {
                        proof {
                            if self.pos < self.tokens@.len() {
                                lemma_token_view_variant(self.tokens@[self.pos as int]);
                            }
                        }
                        Err("Expected ')'".to_owned())
                    }
                },
                Err(e) => Err(e),
            }
        } else if matches!(&self.tokens[cur], Token::Dot) {
            Err("Unexpected token: Dot".to_owned())
        } else {
            Err("Unexpected token: RParen".to_owned())
        }
    }

    /// Parse an application: a left-associative chain of factors.
    pub fn parse_application(&mut self) -> (r: Result<Term, String>)
        requires
            old(self).pos <= old(self).tokens@.len(),
        ensures
            final(self).tokens@ == old(self).tokens@,
            final(self).pos <= old(self).tokens@.len(),
            match spec_parse_app(toks_view(old(self).tokens@), old(self).pos as nat) {
                Ok(tp) => r matches Ok(t) && t@ == tp.0 && final(self).pos == tp.1,
                Err(m) => r matches Err(e) && e@ == m,
            },
        decreases old(self).tokens@.len() - old(self).pos, 2int,
    {
        let ghost toks = toks_view(self.tokens@);
        let ghost pos0 = self.pos as nat;
        proof {
            lemma_factor_advances(toks, pos0);
        }
        let first = self.parse_factor();
        match first {
            Err(e) => Err(e),
            Ok(t) => {
                let mut acc = t;
                while self.pos < self.tokens.len() && is_factor_start(&self.tokens[self.pos])
                    invariant
                        self.tokens@ == old(self).tokens@,
                        pos0 == old(self).pos as nat,
                        pos0 < self.pos <= self.tokens@.len(),
                        spec_parse_app(toks, pos0) == spec_parse_app_loop(
                            toks,
                            self.pos as nat,
                            acc@,
                        ),
                        toks == toks_view(self.tokens@),
                    decreases self.tokens@.len() - self.pos,
                {
                    let ghost cur = self.pos as nat;
                    proof {
                        lemma_factor_advances(toks, cur);
                    }
                    match self.parse_factor() {
                        Ok(next_factor) => {
                            acc = Term::App {
                                func: Box::new(acc),
                                arg: Box::new(next_factor),
                            };
                        },
                        Err(e) => {
                            return Err(e);
                        },
                    }
                }
                Ok(acc)
            },
        }
    }
}

/// Parse a token sequence into a term.
pub fn parse(tokens: Vec<Token>) -> (r: Result<Term, String>)
    ensures
        match spec_parse(toks_view(tokens@)) {
            Ok(t) => r matches Ok(res) && res@ == t,
            Err(m) => r matches Err(e) && e@ == m,
        },
{
    let mut parser = Parser::new(tokens);
    parser.parse_application()
}

} // verus!

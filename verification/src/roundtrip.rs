//! The round trip: printing a term, tokenizing the text, and parsing the
//! tokens yields the term back, for every term whose names are printable
//! identifiers. Proved in two stages: the lexer recovers the term's token
//! sequence from its printed form, and the parser recovers the term from
//! its token sequence.

use vstd::prelude::*;
use crate::term::{SpecTerm, term_size};
use crate::lexer::{SpecToken, spec_lex, spec_tokenize, is_word_char, spec_is_whitespace};
use crate::printer::{spec_print, spec_print_func, spec_print_arg};
use crate::parser::{
    spec_parse, spec_parse_factor, spec_parse_app, spec_parse_app_loop, factor_start,
};
use crate::reduce::spec_step;

verus! {

/// A character that can stand in a printed identifier and be read back as
/// part of the same identifier: a word character that the lexer does not
/// treat as whitespace or as one of its marks.
pub open spec fn printable_name_char(c: char) -> bool {
    &&& is_word_char(c)
    &&& !spec_is_whitespace(c)
    &&& c != 'λ' && c != '\\' && c != '(' && c != ')' && c != '.'
}

/// A name the printer can emit and the lexer reads back as one identifier.
pub open spec fn printable_name(n: Seq<char>) -> bool {
    n.len() > 0 && forall|i: int| 0 <= i < n.len() ==> printable_name_char(#[trigger] n[i])
}

/// A term all of whose names, free and bound, are printable.
pub open spec fn printable_term(t: SpecTerm) -> bool
    decreases t,
{
    match t {
        SpecTerm::Var { name } => printable_name(name),
        SpecTerm::App { func, arg } => printable_term(*func) && printable_term(*arg),
        SpecTerm::Lam { param, body } => printable_name(param) && printable_term(*body),
    }
}

/// How the characters the printer itself emits are classified: the space
/// is whitespace, and the marks are neither whitespace nor word
/// characters. These hold of the character classes of std, which the
/// lexer's model leaves uninterpreted.
pub open spec fn printer_marks_classified() -> bool {
    &&& spec_is_whitespace(' ')
    &&& !spec_is_whitespace('λ')
    &&& !spec_is_whitespace('(')
    &&& !spec_is_whitespace(')')
    &&& !spec_is_whitespace('.')
    &&& !is_word_char(' ')
    &&& !is_word_char('(')
    &&& !is_word_char(')')
    &&& !is_word_char('.')
}

/// The token sequence of a term as printed bare (at the top level, or as
/// an abstraction body).
pub open spec fn tokens_top(t: SpecTerm) -> Seq<SpecToken>
    decreases term_size(t), 0nat,
{
    match t {
        SpecTerm::Var { name } => seq![SpecToken::Identifier(name)],
        SpecTerm::Lam { param, body } => seq![
            SpecToken::Lambda,
            SpecToken::Identifier(param),
            SpecToken::Dot,
        ] + tokens_top(*body),
        SpecTerm::App { func, arg } => tokens_func(*func) + tokens_arg(*arg),
    }
}

/// The token sequence of a term printed on the function side.
pub open spec fn tokens_func(t: SpecTerm) -> Seq<SpecToken>
    decreases term_size(t), 1nat,
{
    if t is Lam {
        seq![SpecToken::LParen] + tokens_top(t) + seq![SpecToken::RParen]
    } else {
        tokens_top(t)
    }
}

/// The token sequence of a term printed on the argument side.
pub open spec fn tokens_arg(t: SpecTerm) -> Seq<SpecToken>
    decreases term_size(t), 1nat,
{
    if t is Var {
        tokens_top(t)
    } else {
        seq![SpecToken::LParen] + tokens_top(t) + seq![SpecToken::RParen]
    }
}

/// While an identifier run is open, word characters extend it until a
/// non-word character (or the end) closes it.
proof fn lemma_lex_ident_run(tail: Seq<char>, acc: Seq<char>, rest: Seq<char>)
    requires
        forall|i: int| 0 <= i < tail.len() ==> is_word_char(#[trigger] tail[i]),
        rest.len() == 0 || !is_word_char(rest[0]),
    ensures
        spec_lex(tail + rest, Some(acc)) == seq![SpecToken::Identifier(acc + tail)] + spec_lex(
            rest,
            None,
        ),
    decreases tail.len(),
{
    if tail.len() == 0 {
        assert(tail + rest =~= rest);
        assert(acc + tail =~= acc);
        if rest.len() == 0 {
            assert(spec_lex(rest, Some(acc)) =~= seq![SpecToken::Identifier(acc)] + spec_lex(
                rest,
                None,
            ));
        }
    } else {
        let s = tail + rest;
        assert(s[0] == tail[0]);
        assert(s.drop_first() =~= tail.drop_first() + rest);
        lemma_lex_ident_run(tail.drop_first(), acc.push(tail[0]), rest);
        assert(acc.push(tail[0]) + tail.drop_first() =~= acc + tail);
    }
}

/// A printable name at the head of the text is read as one identifier.
proof fn lemma_lex_name(n: Seq<char>, rest: Seq<char>)
    requires
        printable_name(n),
        rest.len() == 0 || !is_word_char(rest[0]),
    ensures
        spec_lex(n + rest, None) == seq![SpecToken::Identifier(n)] + spec_lex(rest, None),
{
    let s = n + rest;
    assert(s[0] == n[0]);
    assert(printable_name_char(n[0]));
    assert(s.drop_first() =~= n.drop_first() + rest);
    assert(forall|i: int|
        0 <= i < n.drop_first().len() ==> is_word_char(#[trigger] n.drop_first()[i]));
    lemma_lex_ident_run(n.drop_first(), seq![n[0]], rest);
    assert(seq![n[0]] + n.drop_first() =~= n);
}

/// Lexing a bare-printed term followed by anything that does not extend
/// its last identifier yields the term's tokens, then the rest's.
proof fn lemma_lex_top(t: SpecTerm, rest: Seq<char>)
    requires
        printer_marks_classified(),
        printable_term(t),
        rest.len() == 0 || !is_word_char(rest[0]),
    ensures
        spec_lex(spec_print(t) + rest, None) == tokens_top(t) + spec_lex(rest, None),
    decreases term_size(t), 0nat,
{
    match t {
        SpecTerm::Var { name } => {
            lemma_lex_name(name, rest);
        },
        SpecTerm::Lam { param, body } => {
            let s = spec_print(t) + rest;
            let after_mark = param + (seq!['.'] + spec_print(*body) + rest);
            assert(s[0] == 'λ');
            assert(s.drop_first() =~= after_mark);
            lemma_lex_name(param, seq!['.'] + spec_print(*body) + rest);
            let after_dot = spec_print(*body) + rest;
            assert((seq!['.'] + spec_print(*body) + rest).drop_first() =~= after_dot);
            lemma_lex_top(*body, rest);
            assert(spec_lex(s, None) =~= tokens_top(t) + spec_lex(rest, None));
        },
        SpecTerm::App { func, arg } => {
            let tail_func = seq![' '] + spec_print_arg(*arg) + rest;
            assert(spec_print(t) + rest =~= spec_print_func(*func) + tail_func);
            lemma_lex_func(*func, tail_func);
            assert(tail_func.drop_first() =~= spec_print_arg(*arg) + rest);
            lemma_lex_arg(*arg, rest);
            assert(spec_lex(spec_print(t) + rest, None) =~= tokens_top(t) + spec_lex(rest, None));
        },
    }
}

/// Lexing a function-position term.
proof fn lemma_lex_func(t: SpecTerm, rest: Seq<char>)
    requires
        printer_marks_classified(),
        printable_term(t),
        rest.len() == 0 || !is_word_char(rest[0]),
    ensures
        spec_lex(spec_print_func(t) + rest, None) == tokens_func(t) + spec_lex(rest, None),
    decreases term_size(t), 1nat,
{
    if t is Lam {
        let s = spec_print_func(t) + rest;
        let inner = spec_print(t) + (seq![')'] + rest);
        assert(s[0] == '(');
        assert(s.drop_first() =~= inner);
        lemma_lex_top(t, seq![')'] + rest);
        assert((seq![')'] + rest).drop_first() =~= rest);
        assert(spec_lex(s, None) =~= tokens_func(t) + spec_lex(rest, None));
    } else {
        lemma_lex_top(t, rest);
    }
}

/// Lexing an argument-position term.
proof fn lemma_lex_arg(t: SpecTerm, rest: Seq<char>)
    requires
        printer_marks_classified(),
        printable_term(t),
        rest.len() == 0 || !is_word_char(rest[0]),
    ensures
        spec_lex(spec_print_arg(t) + rest, None) == tokens_arg(t) + spec_lex(rest, None),
    decreases term_size(t), 1nat,
{
    if t is Var {
        lemma_lex_top(t, rest);
    } else {
        let s = spec_print_arg(t) + rest;
        let inner = spec_print(t) + (seq![')'] + rest);
        assert(s[0] == '(');
        assert(s.drop_first() =~= inner);
        lemma_lex_top(t, seq![')'] + rest);
        assert((seq![')'] + rest).drop_first() =~= rest);
        assert(spec_lex(s, None) =~= tokens_arg(t) + spec_lex(rest, None));
    }
}

/// `seg` stands in `toks` at `pos`.
pub open spec fn seg_at(toks: Seq<SpecToken>, pos: nat, seg: Seq<SpecToken>) -> bool {
    pos + seg.len() <= toks.len() && toks.subrange(pos as int, pos as int + seg.len() as int)
        == seg
}

proof fn lemma_seg_split(toks: Seq<SpecToken>, pos: nat, a: Seq<SpecToken>, b: Seq<SpecToken>)
    requires
        seg_at(toks, pos, a + b),
    ensures
        seg_at(toks, pos, a),
        seg_at(toks, (pos + a.len()) as nat, b),
{
    let whole = toks.subrange(pos as int, pos as int + (a + b).len() as int);
    assert forall|k: int| 0 <= k < a.len() implies toks[pos + k] == a[k] by {
        assert(whole[k] == (a + b)[k]);
    }
    assert(toks.subrange(pos as int, pos as int + a.len() as int) =~= a);
    assert forall|k: int| 0 <= k < b.len() implies toks[pos + a.len() + k] == b[k] by {
        assert(whole[a.len() + k] == (a + b)[a.len() + k]);
    }
    assert(toks.subrange(pos as int + a.len() as int, pos as int + a.len() as int + b.len() as int)
        =~= b);
}

proof fn lemma_seg_index(toks: Seq<SpecToken>, pos: nat, seg: Seq<SpecToken>, k: int)
    requires
        seg_at(toks, pos, seg),
        0 <= k < seg.len(),
    ensures
        toks[pos + k] == seg[k],
{
    assert(toks.subrange(pos as int, pos as int + seg.len() as int)[k] == seg[k]);
}

proof fn lemma_tokens_top_len(t: SpecTerm)
    ensures
        tokens_top(t).len() >= 1,
        tokens_func(t).len() >= tokens_top(t).len(),
        tokens_arg(t).len() >= tokens_top(t).len(),
    decreases term_size(t),
{
    match t {
        SpecTerm::Var { .. } => {},
        SpecTerm::Lam { .. } => {},
        SpecTerm::App { func, arg } => {
            lemma_tokens_top_len(*func);
        },
    }
}

proof fn lemma_tokens_arg_starts_factor(t: SpecTerm)
    ensures
        factor_start(tokens_arg(t)[0]),
{
    match t {
        SpecTerm::Var { .. } => {},
        _ => {
            assert(tokens_arg(t)[0] == SpecToken::LParen);
        },
    }
}

/// The parser reads an argument-position token segment back as that term,
/// as one factor, whatever follows.
proof fn lemma_parse_factor_of_arg(t: SpecTerm, toks: Seq<SpecToken>, pos: nat)
    requires
        seg_at(toks, pos, tokens_arg(t)),
    ensures
        spec_parse_factor(toks, pos) == Ok::<(SpecTerm, nat), Seq<char>>(
            (t, (pos + tokens_arg(t).len()) as nat),
        ),
    decreases term_size(t), 1nat,
{
    lemma_tokens_top_len(t);
    if t is Var {
        lemma_seg_index(toks, pos, tokens_arg(t), 0);
    } else {
        let inner = tokens_top(t);
        assert(tokens_arg(t) =~= seq![SpecToken::LParen] + (inner + seq![SpecToken::RParen]));
        lemma_seg_split(toks, pos, seq![SpecToken::LParen], inner + seq![SpecToken::RParen]);
        lemma_seg_split(toks, (pos + 1) as nat, inner, seq![SpecToken::RParen]);
        lemma_seg_index(toks, pos, tokens_arg(t), 0);
        let q = (pos + 1 + inner.len()) as nat;
        lemma_seg_index(toks, q, seq![SpecToken::RParen], 0);
        lemma_parse_app_of_top(t, toks, (pos + 1) as nat);
    }
}

/// After the parser has read a function-position token segment, it is in
/// the application loop with that term as the accumulator.
proof fn lemma_parse_app_spine(t: SpecTerm, toks: Seq<SpecToken>, pos: nat)
    requires
        seg_at(toks, pos, tokens_func(t)),
    ensures
        spec_parse_app(toks, pos) == spec_parse_app_loop(
            toks,
            (pos + tokens_func(t).len()) as nat,
            t,
        ),
    decreases term_size(t), 1nat,
{
    lemma_tokens_top_len(t);
    match t {
        SpecTerm::Var { name } => {
            lemma_seg_index(toks, pos, tokens_func(t), 0);
        },
        SpecTerm::Lam { param, body } => {
            let inner = tokens_top(t);
            assert(tokens_func(t) =~= seq![SpecToken::LParen] + (inner + seq![SpecToken::RParen]));
            lemma_seg_split(toks, pos, seq![SpecToken::LParen], inner + seq![SpecToken::RParen]);
            lemma_seg_split(toks, (pos + 1) as nat, inner, seq![SpecToken::RParen]);
            lemma_seg_index(toks, pos, tokens_func(t), 0);
            let q = (pos + 1 + inner.len()) as nat;
            lemma_seg_index(toks, q, seq![SpecToken::RParen], 0);
            lemma_parse_app_of_top(t, toks, (pos + 1) as nat);
        },
        SpecTerm::App { func, arg } => {
            reveal_with_fuel(spec_parse_app_loop, 3);
            assert(tokens_func(t) =~= tokens_func(*func) + tokens_arg(*arg));
            lemma_seg_split(toks, pos, tokens_func(*func), tokens_arg(*arg));
            lemma_parse_app_spine(*func, toks, pos);
            let m = (pos + tokens_func(*func).len()) as nat;
            lemma_tokens_top_len(*arg);
            lemma_seg_index(toks, m, tokens_arg(*arg), 0);
            lemma_tokens_arg_starts_factor(*arg);
            lemma_parse_factor_of_arg(*arg, toks, m);
        },
    }
}

/// The parser reads a bare-printed token segment back as that term, when
/// what follows cannot start a further factor.
proof fn lemma_parse_app_of_top(t: SpecTerm, toks: Seq<SpecToken>, pos: nat)
    requires
        seg_at(toks, pos, tokens_top(t)),
        pos + tokens_top(t).len() == toks.len() || !factor_start(
            toks[pos + tokens_top(t).len() as int],
        ),
    ensures
        spec_parse_app(toks, pos) == Ok::<(SpecTerm, nat), Seq<char>>(
            (t, (pos + tokens_top(t).len()) as nat),
        ),
    decreases term_size(t), 0nat,
{
    lemma_tokens_top_len(t);
    match t {
        SpecTerm::Var { name } => {
            lemma_seg_index(toks, pos, tokens_top(t), 0);
        },
        SpecTerm::Lam { param, body } => {
            let head = seq![SpecToken::Lambda, SpecToken::Identifier(param), SpecToken::Dot];
            assert(tokens_top(t) =~= head + tokens_top(*body));
            lemma_seg_split(toks, pos, head, tokens_top(*body));
            lemma_seg_index(toks, pos, head, 0);
            lemma_seg_index(toks, pos, head, 1);
            lemma_seg_index(toks, pos, head, 2);
            lemma_tokens_top_len(*body);
            lemma_parse_app_of_top(*body, toks, (pos + 3) as nat);
        },
        SpecTerm::App { func, arg } => {
            reveal_with_fuel(spec_parse_app_loop, 3);
            assert(tokens_top(t) =~= tokens_func(*func) + tokens_arg(*arg));
            lemma_seg_split(toks, pos, tokens_func(*func), tokens_arg(*arg));
            lemma_parse_app_spine(*func, toks, pos);
            let m = (pos + tokens_func(*func).len()) as nat;
            lemma_tokens_top_len(*arg);
            lemma_seg_index(toks, m, tokens_arg(*arg), 0);
            lemma_tokens_arg_starts_factor(*arg);
            lemma_parse_factor_of_arg(*arg, toks, m);
        },
    }
}

/// The lexer recovers a printable term's token sequence from its printed
/// form.
pub proof fn lemma_tokenize_print(t: SpecTerm)
    requires
        printer_marks_classified(),
        printable_term(t),
    ensures
        spec_tokenize(spec_print(t)) == tokens_top(t),
{
    lemma_lex_top(t, Seq::empty());
    assert(spec_print(t) + Seq::<char>::empty() =~= spec_print(t));
    assert(tokens_top(t) + spec_lex(Seq::<char>::empty(), None) =~= tokens_top(t));
}

/// The round trip: for every printable term, printing it, tokenizing the
/// text and parsing the tokens yields the very term back — not merely an
/// alpha-equivalent one.
pub proof fn lemma_round_trip(t: SpecTerm)
    requires
        printer_marks_classified(),
        printable_term(t),
    ensures
        spec_parse(spec_tokenize(spec_print(t))) == Ok::<SpecTerm, Seq<char>>(t),
{
    lemma_tokenize_print(t);
    let toks = tokens_top(t);
    assert(toks.subrange(0, toks.len() as int) =~= toks);
    lemma_parse_app_of_top(t, toks, 0);
}

/// Idempotence on normal forms: when a term admits no reduction step,
/// running the whole pipeline on its printed form prints the same text
/// again.
pub proof fn lemma_normal_form_idempotent(t: SpecTerm)
    requires
        printer_marks_classified(),
        printable_term(t),
        spec_step(t) is None,
    ensures
        crate::spec_pipeline(spec_print(t)) == Ok::<Seq<char>, Seq<char>>(spec_print(t)),
{
    lemma_round_trip(t);
}

} // verus!

use vstd::prelude::*;
use crate::ast::{parse_spec, tok_close, tok_open, Ast};
use crate::error::LangError;
use crate::literal::{int_body, int_literal, is_digit, is_float_literal, sign_body};
use crate::primitive::PrimV;
use crate::result::ValueV;
use crate::scope::EnvV;
use crate::semantics::{
    apply_spec, eq_value, eqhuh_spec, eval_spec, exec_spec, if_spec, leaf_value, not_spec,
    not_value,
};
use crate::token::{is_atom_char, is_paren, is_sep, tok_rec, tokenize_spec};
use crate::userfunc::FnDefV;

verus! {

// ---------------------------------------------------------------------------
// Literal evaluation laws
// ---------------------------------------------------------------------------
/// Every character of an integer literal is an ordinary atom character.
proof fn lemma_int_literal_atom_chars(s: Seq<char>)
    requires
        int_literal(s) is Some,
    ensures
        forall|i: int| 0 <= i < s.len() ==> is_atom_char(#[trigger] s[i]),
{
    let b = sign_body(s);
    assert forall|i: int| 0 <= i < s.len() implies is_atom_char(s[i]) by {
        if s.len() > 0 && (s[0] == '+' || s[0] == '-') {
            if i > 0 {
                assert(b[i - 1] == s[i]);
                assert(is_digit(s[i]));
            }
        } else {
            assert(b[i] == s[i]);
            assert(is_digit(s[i]));
        }
    }
}

/// A nonempty run of atom characters tokenizes to itself alone, whatever
/// has accumulated before it.
proof fn lemma_tok_rec_atoms(s: Seq<char>, cur: Seq<char>)
    requires
        forall|i: int| 0 <= i < s.len() ==> is_atom_char(#[trigger] s[i]),
    ensures
        tok_rec(s, cur) == crate::token::flush(cur + s),
    decreases s.len(),
{
    if s.len() == 0 {
        assert(cur + s =~= cur);
    } else {
        lemma_tok_rec_atoms(s.drop_first(), cur.push(s[0]));
        assert(cur.push(s[0]) + s.drop_first() =~= cur + s);
    }
}

/// A single atom, such as a numeric literal, is one token.
proof fn lemma_atom_tokenizes_alone(s: Seq<char>)
    requires
        s.len() > 0,
        forall|i: int| 0 <= i < s.len() ==> is_atom_char(#[trigger] s[i]),
    ensures
        tokenize_spec(s) == seq![s],
{
    lemma_tok_rec_atoms(s, Seq::empty());
    assert(Seq::<char>::empty() + s =~= s);
}

/// A single atom token parses to the one leaf holding it.
proof fn lemma_atom_parses_to_leaf(s: Seq<char>)
    requires
        s.len() > 0,
        forall|i: int| 0 <= i < s.len() ==> is_atom_char(#[trigger] s[i]),
    ensures
        parse_spec(seq![s]) == Ok::<Seq<Ast>, LangError>(seq![Ast::Leaf(s)]),
{
    let toks = seq![s];
    assert(s != tok_open() && s != tok_close()) by {
        assert(is_atom_char(s[0]));
        if s == tok_open() {
            assert(s[0] == '(');
        }
        if s == tok_close() {
            assert(s[0] == ')');
        }
    }
    assert(toks.subrange(1, 1) =~= Seq::<Seq<char>>::empty());
    assert(parse_spec(toks.subrange(1, 1)) == Ok::<Seq<Ast>, LangError>(Seq::empty()));
    assert(seq![Ast::Leaf(s)] + Seq::<Ast>::empty() =~= seq![Ast::Leaf(s)]);
}

/// Text that reads as an integer literal runs through the whole pipeline —
/// tokenizing, parsing, evaluating — to exactly that integer, in any
/// environment, leaving the environment unchanged.
pub proof fn lemma_int_literal_pipeline(s: Seq<char>, env: EnvV, fuel: nat)
    requires
        int_literal(s) is Some,
    ensures
        tokenize_spec(s) == seq![s],
        parse_spec(tokenize_spec(s)) == Ok::<Seq<Ast>, LangError>(seq![Ast::Leaf(s)]),
        exec_spec(fuel, seq![Ast::Leaf(s)], env) == (
            Ok::<Option<ValueV>, LangError>(
                Some(ValueV::Primitive(PrimV::I(int_literal(s)->Some_0))),
            ),
            env,
        ),
{
    lemma_int_literal_atom_chars(s);
    assert(s.len() > 0) by {
        assert(int_body(sign_body(s)));
    }
    lemma_atom_tokenizes_alone(s);
    lemma_atom_parses_to_leaf(s);
    let prog = seq![Ast::Leaf(s)];
    assert(eval_spec(fuel, prog[0], env) == (leaf_value(s, env), env));
}

/// Every character of a float literal is an ordinary atom character.
proof fn lemma_float_literal_atom_chars(s: Seq<char>)
    requires
        is_float_literal(s),
    ensures
        forall|i: int| 0 <= i < s.len() ==> is_atom_char(#[trigger] s[i]),
{
    let b = sign_body(s);
    let signed = s.len() > 0 && (s[0] == '+' || s[0] == '-');
    let off: int = if signed {
        1
    } else {
        0
    };
    assert forall|i: int| 0 <= i < s.len() implies is_atom_char(s[i]) by {
        if signed && i == 0 {
        } else {
            let j = i - off;
            assert(b[j] == s[i]);
            lemma_float_body_atom_char(b, j);
        }
    }
}

/// Every character inside the sign-stripped body of a float literal is an
/// ordinary atom character.
proof fn lemma_float_body_atom_char(b: Seq<char>, j: int)
    requires
        crate::literal::is_special(b) || crate::literal::is_number_body(b),
        0 <= j < b.len(),
    ensures
        is_atom_char(b[j]),
{
    let c = b[j];
    if crate::literal::is_special(b) {
        assert(crate::literal::lower_code(c) == 105 || crate::literal::lower_code(c) == 110
            || crate::literal::lower_code(c) == 102 || crate::literal::lower_code(c) == 116
            || crate::literal::lower_code(c) == 121 || crate::literal::lower_code(c) == 97) by {
            if crate::literal::ci_eq(b, seq!['i', 'n', 'f']) {
                assert(crate::literal::lower_code(b[j]) == crate::literal::lower_code(
                    seq!['i', 'n', 'f'][j],
                ));
            } else if crate::literal::ci_eq(b, seq!['i', 'n', 'f', 'i', 'n', 'i', 't', 'y']) {
                assert(crate::literal::lower_code(b[j]) == crate::literal::lower_code(
                    seq!['i', 'n', 'f', 'i', 'n', 'i', 't', 'y'][j],
                ));
            } else {
                assert(crate::literal::lower_code(b[j]) == crate::literal::lower_code(
                    seq!['n', 'a', 'n'][j],
                ));
            }
        }
    } else {
        match crate::literal::find_exp_from(b, 0) {
            None => {
                assert(crate::literal::is_mantissa(b));
                assert(is_digit(c) || crate::literal::is_dot(c));
            },
            Some(m) => {
                lemma_find_exp_in_range(b, 0, m);
                if j < m {
                    assert(b.subrange(0, m)[j] == c);
                    assert(is_digit(c) || crate::literal::is_dot(c));
                } else if j == m {
                    assert(crate::literal::is_exp_marker(c));
                } else {
                    let e = b.subrange(m + 1, b.len() as int);
                    assert(e[j - m - 1] == c);
                    let eb = sign_body(e);
                    if e.len() > 0 && (e[0] == '+' || e[0] == '-') {
                        if j - m - 1 > 0 {
                            assert(eb[j - m - 2] == e[j - m - 1]);
                            assert(is_digit(c));
                        }
                    } else {
                        assert(eb[j - m - 1] == e[j - m - 1]);
                        assert(is_digit(c));
                    }
                }
            },
        }
    }
}

/// The exponent marker that the search finds lies within the sequence.
proof fn lemma_find_exp_in_range(b: Seq<char>, i: int, m: int)
    requires
        0 <= i,
        crate::literal::find_exp_from(b, i) == Some(m),
    ensures
        i <= m < b.len(),
        crate::literal::is_exp_marker(b[m]),
    decreases b.len() - i,
{
    if i < b.len() && !crate::literal::is_exp_marker(b[i]) {
        lemma_find_exp_in_range(b, i + 1, m);
    }
}

/// Text that reads only as a float literal runs through the whole pipeline
/// to the float value holding exactly that text, in any environment,
/// leaving the environment unchanged.
pub proof fn lemma_float_literal_pipeline(s: Seq<char>, env: EnvV, fuel: nat)
    requires
        int_literal(s) is None,
        is_float_literal(s),
    ensures
        tokenize_spec(s) == seq![s],
        parse_spec(tokenize_spec(s)) == Ok::<Seq<Ast>, LangError>(seq![Ast::Leaf(s)]),
        exec_spec(fuel, seq![Ast::Leaf(s)], env) == (
            Ok::<Option<ValueV>, LangError>(Some(ValueV::Primitive(PrimV::F(s)))),
            env,
        ),
{
    lemma_float_literal_atom_chars(s);
    assert(s.len() > 0) by {
        let b = sign_body(s);
        if crate::literal::is_special(b) {
            assert(b.len() >= 3);
        } else {
            match crate::literal::find_exp_from(b, 0) {
                None => {
                    assert(b.len() > 0);
                },
                Some(m) => {
                    lemma_find_exp_in_range(b, 0, m);
                },
            }
        }
    }
    lemma_atom_tokenizes_alone(s);
    lemma_atom_parses_to_leaf(s);
    let prog = seq![Ast::Leaf(s)];
    assert(eval_spec(fuel, prog[0], env) == (leaf_value(s, env), env));
}

// ---------------------------------------------------------------------------
// Tokenizer round-trip law
// ---------------------------------------------------------------------------
/// A token as the tokenizer produces it: nonempty, free of separators, and
/// holding a parenthesis only when it is that one character.
pub open spec fn wf_token(t: Seq<char>) -> bool {
    &&& t.len() > 0
    &&& forall|i: int| 0 <= i < t.len() ==> !is_sep(#[trigger] t[i])
    &&& t.len() > 1 ==> forall|i: int| 0 <= i < t.len() ==> !is_paren(#[trigger] t[i])
}

pub open spec fn wf_tokens(toks: Seq<Seq<char>>) -> bool {
    forall|k: int| 0 <= k < toks.len() ==> wf_token(#[trigger] toks[k])
}

/// The tokens rejoined into one line with single spaces between them.
pub open spec fn join_tokens(toks: Seq<Seq<char>>) -> Seq<char>
    decreases toks.len(),
{
    if toks.len() == 0 {
        Seq::empty()
    } else if toks.len() == 1 {
        toks[0]
    } else {
        toks[0] + seq![' '] + join_tokens(toks.drop_first())
    }
}

/// Whatever it is given, the tokenizer only ever produces well-formed
/// tokens.
proof fn lemma_tok_rec_wf(s: Seq<char>, cur: Seq<char>)
    requires
        forall|i: int| 0 <= i < cur.len() ==> is_atom_char(#[trigger] cur[i]),
    ensures
        wf_tokens(tok_rec(s, cur)),
    decreases s.len(),
{
    let fl = crate::token::flush(cur);
    assert(wf_tokens(fl)) by {
        if cur.len() > 0 {
            assert(fl[0] == cur);
        }
    }
    if s.len() == 0 {
    } else if is_sep(s[0]) {
        lemma_tok_rec_wf(s.drop_first(), Seq::empty());
        let rest = tok_rec(s.drop_first(), Seq::empty());
        assert forall|k: int| 0 <= k < (fl + rest).len() implies wf_token((fl + rest)[k]) by {
            if k < fl.len() {
                assert((fl + rest)[k] == fl[k]);
            } else {
                assert((fl + rest)[k] == rest[k - fl.len()]);
            }
        }
    } else if is_paren(s[0]) {
        lemma_tok_rec_wf(s.drop_first(), Seq::empty());
        let rest = tok_rec(s.drop_first(), Seq::empty());
        let p = seq![seq![s[0]]];
        assert(wf_token(p[0]));
        let whole = fl + p + rest;
        assert forall|k: int| 0 <= k < whole.len() implies wf_token(whole[k]) by {
            if k < fl.len() {
                assert(whole[k] == fl[k]);
            } else if k == fl.len() {
                assert(whole[k] == p[0]);
            } else {
                assert(whole[k] == rest[k - fl.len() - 1]);
            }
        }
    } else {
        assert(forall|i: int|
            0 <= i < cur.push(s[0]).len() ==> is_atom_char(#[trigger] cur.push(s[0])[i]));
        lemma_tok_rec_wf(s.drop_first(), cur.push(s[0]));
    }
}

/// Prepending a run of atom characters to the input is the same as having
/// accumulated it already.
proof fn lemma_tok_rec_append_atom(t: Seq<char>, u: Seq<char>, cur: Seq<char>)
    requires
        forall|i: int| 0 <= i < t.len() ==> is_atom_char(#[trigger] t[i]),
    ensures
        tok_rec(t + u, cur) == tok_rec(u, cur + t),
    decreases t.len(),
{
    if t.len() == 0 {
        assert(t + u =~= u);
        assert(cur + t =~= cur);
    } else {
        assert((t + u)[0] == t[0]);
        assert((t + u).drop_first() =~= t.drop_first() + u);
        lemma_tok_rec_append_atom(t.drop_first(), u, cur.push(t[0]));
        assert(cur.push(t[0]) + t.drop_first() =~= cur + t);
    }
}

/// Tokenizing the single-space joining of well-formed tokens gives the
/// tokens back.
proof fn lemma_untokenize(toks: Seq<Seq<char>>)
    requires
        wf_tokens(toks),
    ensures
        tok_rec(join_tokens(toks), Seq::empty()) == toks,
    decreases toks.len(),
{
    if toks.len() == 0 {
    } else {
        let t = toks[0];
        let rest = toks.drop_first();
        assert(wf_token(t));
        assert(wf_tokens(rest)) by {
            assert(forall|k: int| 0 <= k < rest.len() ==> #[trigger] rest[k] == toks[k + 1]);
        }
        lemma_untokenize(rest);
        if is_paren(t[0]) {
            assert(t.len() == 1) by {
                if t.len() > 1 {
                    assert(!is_paren(t[0]));
                }
            }
            assert(t =~= seq![t[0]]);
            if toks.len() == 1 {
                let j = join_tokens(toks);
                assert(j == t);
                assert(j.drop_first() =~= Seq::<char>::empty());
                assert(tok_rec(j, Seq::empty()) =~= seq![t]);
                assert(tok_rec(j, Seq::empty()) == toks) by {
                    assert(seq![t] =~= toks);
                }
            } else {
                let j = join_tokens(toks);
                assert(j == t + seq![' '] + join_tokens(rest));
                assert(j[0] == t[0]);
                assert(j.drop_first() =~= seq![' '] + join_tokens(rest));
                let j1 = seq![' '] + join_tokens(rest);
                assert(is_sep(j1[0]));
                assert(j1.drop_first() =~= join_tokens(rest));
                assert(tok_rec(j.drop_first(), Seq::empty()) == tok_rec(j1, Seq::empty()));
                assert(tok_rec(j1, Seq::empty()) == crate::token::flush(Seq::empty()) + tok_rec(
                    j1.drop_first(),
                    Seq::empty(),
                ));
                assert(tok_rec(j1.drop_first(), Seq::empty()) == rest);
                assert(tok_rec(j1, Seq::empty()) =~= rest);
                assert(tok_rec(j, Seq::empty()) == crate::token::flush(Seq::empty()) + seq![
                    seq![j[0]],
                ] + tok_rec(j.drop_first(), Seq::empty()));
                assert(tok_rec(j, Seq::empty()) =~= seq![t] + rest);
                assert(seq![t] + rest =~= toks);
            }
        } else {
            assert(forall|i: int| 0 <= i < t.len() ==> is_atom_char(#[trigger] t[i])) by {
                assert(forall|i: int| 0 <= i < t.len() ==> !is_sep(#[trigger] t[i]));
                if t.len() > 1 {
                    assert(forall|i: int| 0 <= i < t.len() ==> !is_paren(#[trigger] t[i]));
                } else {
                    assert(!is_paren(t[0]));
                }
            }
            if toks.len() == 1 {
                let j = join_tokens(toks);
                assert(j == t);
                lemma_tok_rec_atoms(t, Seq::empty());
                assert(Seq::<char>::empty() + t =~= t);
                assert(tok_rec(j, Seq::empty()) == seq![t]);
                assert(seq![t] =~= toks);
            } else {
                let j = join_tokens(toks);
                let u = seq![' '] + join_tokens(rest);
                assert(j =~= t + u);
                lemma_tok_rec_append_atom(t, u, Seq::empty());
                assert(Seq::<char>::empty() + t =~= t);
                assert(is_sep(u[0]));
                assert(u.drop_first() =~= join_tokens(rest));
                assert(crate::token::flush(t) == seq![t]);
                assert(tok_rec(j, Seq::empty()) == seq![t] + rest);
                assert(seq![t] + rest =~= toks);
            }
        }
    }
}

/// Tokenizing is idempotent: rejoin the tokens of any line with single
/// spaces and tokenize again, and the same tokens come back.
pub proof fn lemma_tokenize_idempotent(s: Seq<char>)
    ensures
        tokenize_spec(join_tokens(tokenize_spec(s))) == tokenize_spec(s),
{
    lemma_tok_rec_wf(s, Seq::empty());
    lemma_untokenize(tokenize_spec(s));
}

// ---------------------------------------------------------------------------
// Equality laws
// ---------------------------------------------------------------------------
/// `eq?` is reflexive: any outcome, value or nothing, equals itself.
pub proof fn lemma_eq_reflexive(v: Option<ValueV>)
    ensures
        eq_value(v, v) == ValueV::Primitive(PrimV::B(true)),
{
}

/// `eq?` is symmetric.
pub proof fn lemma_eq_symmetric(a: Option<ValueV>, b: Option<ValueV>)
    ensures
        eq_value(a, b) == eq_value(b, a),
{
}

/// Nothing equals nothing; nothing never equals a present value.
pub proof fn lemma_eq_absent(v: ValueV)
    ensures
        eq_value(None, None) == ValueV::Primitive(PrimV::B(true)),
        eq_value(None, Some(v)) == ValueV::Primitive(PrimV::B(false)),
        eq_value(Some(v), None) == ValueV::Primitive(PrimV::B(false)),
{
}

// ---------------------------------------------------------------------------
// Negation laws
// ---------------------------------------------------------------------------
/// `not` applied twice to a boolean gives the boolean back.
pub proof fn lemma_not_involution_on_bool(b: bool)
    ensures
        not_value(Some(not_value(Some(ValueV::Primitive(PrimV::B(b)))))) == ValueV::Primitive(
            PrimV::B(b),
        ),
{
}

/// On any outcome that is not a boolean — any non-boolean value, and
/// nothing — `not` yields false.
pub proof fn lemma_not_non_boolean(v: Option<ValueV>)
    requires
        !(v matches Some(ValueV::Primitive(PrimV::B(_)))),
    ensures
        not_value(v) == ValueV::Primitive(PrimV::B(false)),
{
}

// ---------------------------------------------------------------------------
// Arity laws
// ---------------------------------------------------------------------------
/// `if` with zero, one, or four or more arguments fails with an arity
/// error, whatever the arguments and the environment, which is unchanged.
pub proof fn lemma_if_arity(fuel: nat, args: Seq<Ast>, env: EnvV)
    requires
        args.len() < 2 || args.len() > 3,
    ensures
        if_spec(fuel, args, env) == (Err::<Option<ValueV>, LangError>(LangError::ArityError), env),
{
}

/// `eq?` with an argument count other than two fails with an arity error.
pub proof fn lemma_eqhuh_arity(fuel: nat, args: Seq<Ast>, env: EnvV)
    requires
        args.len() != 2,
    ensures
        eqhuh_spec(fuel, args, env) == (
            Err::<Option<ValueV>, LangError>(LangError::ArityError),
            env,
        ),
{
}

/// `not` with an argument count other than one fails with an arity error.
pub proof fn lemma_not_arity(fuel: nat, args: Seq<Ast>, env: EnvV)
    requires
        args.len() != 1,
    ensures
        not_spec(fuel, args, env) == (
            Err::<Option<ValueV>, LangError>(LangError::ArityError),
            env,
        ),
{
}

/// A user function called with any argument count other than its parameter
/// count fails with an arity error.
pub proof fn lemma_apply_arity(fuel: nat, f: FnDefV, args: Seq<Ast>, env: EnvV)
    requires
        args.len() != f.params.len(),
    ensures
        apply_spec(fuel, f, args, env) == (
            Err::<Option<ValueV>, LangError>(LangError::ArityError),
            env,
        ),
{
}

} // verus!

//! The substitution expander: rewrites one token sequence for one
//! iteration value, replacing the loop variable by the value's decimal
//! literal, pasting identifiers across the `~` operator, and recursing
//! into groups. It never fails: a malformed paste passes through
//! literally.

use vstd::prelude::*;

use crate::decimal::{dec_str, dec_string};
use crate::token::{
    lemma_toks_view_drop_last, lemma_toks_view_index, lemma_toks_view_len, lemma_toks_view_push,
    lemma_toks_view_skip, pos_of, token_view, toks_view, Token, TokenV,
};

verus! {

/// Whether the next input token starts a successful paste: the token is
/// the `~` operator, the last token already emitted is an identifier, and
/// the token after the `~` is exactly the loop variable.
pub open spec fn is_paste(acc: Seq<TokenV>, ts: Seq<TokenV>, var: Seq<char>) -> bool {
    &&& ts.len() >= 2
    &&& ts[0] matches TokenV::Punct { ch, .. } && ch == '~'
    &&& acc.len() > 0
    &&& acc.last() is Ident
    &&& ts[1] matches TokenV::Ident { name, .. } && name == var
}

/// The expansion of the remaining input `ts` appended after the already
/// emitted output `acc`, for one iteration value.
///
/// - A successful paste pops the emitted identifier and re-emits it with
///   the value's decimal digits appended; the `~` and the loop-variable
///   token are consumed. The pasted identifier keeps the popped
///   identifier's position.
/// - A `~` in any other situation passes through unchanged.
/// - A bare loop-variable identifier becomes an unsuffixed decimal
///   literal at the identifier's position.
/// - A group keeps its delimiter and position; its contents are expanded
///   with a fresh (empty) lookback buffer.
/// - Every other token passes through unchanged.
pub open spec fn expand_onto(acc: Seq<TokenV>, ts: Seq<TokenV>, value: nat, var: Seq<char>) -> Seq<
    TokenV,
>
    decreases ts,
{
    if ts.len() == 0 {
        acc
    } else if is_paste(acc, ts, var) {
        let pasted = TokenV::Ident {
            name: acc.last()->Ident_name + dec_str(value),
            pos: pos_of(acc.last()),
        };
        expand_onto(acc.drop_last().push(pasted), ts.skip(2), value, var)
    } else {
        let rep = match ts[0] {
            TokenV::Ident { name, pos } => if name == var {
                TokenV::Lit { text: dec_str(value), pos }
            } else {
                ts[0]
            },
            TokenV::Group { delim, inner, pos } => TokenV::Group {
                delim,
                inner: expand_onto(Seq::empty(), inner, value, var),
                pos,
            },
            _ => ts[0],
        };
        expand_onto(acc.push(rep), ts.skip(1), value, var)
    }
}

/// The expansion of a whole token sequence for one iteration value.
pub open spec fn spec_expand(ts: Seq<TokenV>, value: nat, var: Seq<char>) -> Seq<TokenV> {
    expand_onto(Seq::empty(), ts, value, var)
}

/// Whether the loop variable occurs anywhere in a token sequence, at any
/// depth, as a plain identifier.
pub open spec fn mentions_var(ts: Seq<TokenV>, var: Seq<char>) -> bool
    decreases ts,
{
    if ts.len() == 0 {
        false
    } else {
        ||| ts[0] matches TokenV::Ident { name, .. } && name == var
        ||| ts[0] matches TokenV::Group { inner, .. } && mentions_var(inner, var)
        ||| mentions_var(ts.skip(1), var)
    }
}

proof fn lemma_expand_onto_identity(acc: Seq<TokenV>, ts: Seq<TokenV>, value: nat, var: Seq<char>)
    requires
        !mentions_var(ts, var),
    ensures
        expand_onto(acc, ts, value, var) == acc + ts,
    decreases ts,
{
    if ts.len() == 0 {
        assert(acc + ts =~= acc);
    } else {
        assert(!(ts[0] matches TokenV::Ident { name, .. } && name == var));
        assert(!mentions_var(ts.skip(1), var));
        if ts.len() >= 2 {
            assert(ts.skip(1)[0] == ts[1]);
            assert(!(ts[1] matches TokenV::Ident { name, .. } && name == var));
            assert(!is_paste(acc, ts, var));
        }
        match ts[0] {
            TokenV::Group { delim, inner, pos } => {
                assert(!mentions_var(inner, var));
                lemma_expand_onto_identity(Seq::empty(), inner, value, var);
                assert(Seq::<TokenV>::empty() + inner =~= inner);
                assert(TokenV::Group {
                    delim,
                    inner: expand_onto(Seq::empty(), inner, value, var),
                    pos,
                } == ts[0]);
            },
            _ => {},
        }
        lemma_expand_onto_identity(acc.push(ts[0]), ts.skip(1), value, var);
        assert(acc.push(ts[0]) + ts.skip(1) =~= acc + ts);
    }
}

/// Expansion applied to a sequence in which the loop variable never
/// occurs is the identity: nothing is replaced, and no paste can fire.
pub proof fn lemma_expand_without_var_is_identity(ts: Seq<TokenV>, value: nat, var: Seq<char>)
    requires
        !mentions_var(ts, var),
    ensures
        spec_expand(ts, value, var) == ts,
{
    lemma_expand_onto_identity(Seq::empty(), ts, value, var);
    assert(Seq::<TokenV>::empty() + ts =~= ts);
}

proof fn lemma_expand_onto_len_value_indep(
    acc1: Seq<TokenV>,
    acc2: Seq<TokenV>,
    ts: Seq<TokenV>,
    v1: nat,
    v2: nat,
    var: Seq<char>,
)
    requires
        acc1.len() == acc2.len(),
        acc1.len() > 0 ==> (acc1.last() is Ident <==> acc2.last() is Ident),
    ensures
        expand_onto(acc1, ts, v1, var).len() + acc2.len() == expand_onto(acc2, ts, v2, var).len()
            + acc1.len(),
    decreases ts,
{
    if ts.len() == 0 {
    } else if is_paste(acc1, ts, var) {
        assert(is_paste(acc2, ts, var));
        let p1 = TokenV::Ident {
            name: acc1.last()->Ident_name + dec_str(v1),
            pos: pos_of(acc1.last()),
        };
        let p2 = TokenV::Ident {
            name: acc2.last()->Ident_name + dec_str(v2),
            pos: pos_of(acc2.last()),
        };
        lemma_expand_onto_len_value_indep(
            acc1.drop_last().push(p1),
            acc2.drop_last().push(p2),
            ts.skip(2),
            v1,
            v2,
            var,
        );
    } else {
        assert(!is_paste(acc2, ts, var));
        let rep1 = match ts[0] {
            TokenV::Ident { name, pos } => if name == var {
                TokenV::Lit { text: dec_str(v1), pos }
            } else {
                ts[0]
            },
            TokenV::Group { delim, inner, pos } => TokenV::Group {
                delim,
                inner: expand_onto(Seq::empty(), inner, v1, var),
                pos,
            },
            _ => ts[0],
        };
        let rep2 = match ts[0] {
            TokenV::Ident { name, pos } => if name == var {
                TokenV::Lit { text: dec_str(v2), pos }
            } else {
                ts[0]
            },
            TokenV::Group { delim, inner, pos } => TokenV::Group {
                delim,
                inner: expand_onto(Seq::empty(), inner, v2, var),
                pos,
            },
            _ => ts[0],
        };
        assert(rep1 is Ident <==> rep2 is Ident);
        lemma_expand_onto_len_value_indep(
            acc1.push(rep1),
            acc2.push(rep2),
            ts.skip(1),
            v1,
            v2,
            var,
        );
    }
}

/// How many tokens an expansion emits does not depend on the iteration
/// value: replacement is one for one, and whether a paste fires depends
/// only on the kinds of the surrounding tokens.
pub proof fn lemma_expand_len_value_independent(ts: Seq<TokenV>, v1: nat, v2: nat, var: Seq<char>)
    ensures
        spec_expand(ts, v1, var).len() == spec_expand(ts, v2, var).len(),
{
    lemma_expand_onto_len_value_indep(Seq::empty(), Seq::empty(), ts, v1, v2, var);
}

/// Rewrites a token sequence for one iteration value: every identifier
/// equal to `var` becomes the decimal literal of `value`, `ident ~ var`
/// pastes into one identifier, and groups are rewritten recursively.
pub fn replace_ident(tokens: &Vec<Token>, value: u64, var: &String) -> (r: Vec<Token>)
    ensures
        toks_view(r@) == spec_expand(toks_view(tokens@), value as nat, var@),
    decreases tokens@,
{
    let ghost fullv = toks_view(tokens@);
    let ghost varv = var@;
    let ghost v = value as nat;
    let mut out: Vec<Token> = Vec::new();
    let mut i: usize = 0;
    let n = tokens.len();
    proof {
        lemma_toks_view_len(tokens@);
        assert(toks_view(out@) =~= Seq::<TokenV>::empty());
        assert(fullv.skip(0) =~= fullv);
    }
    while i < n
        invariant
            n == tokens@.len(),
            i <= n,
            fullv == toks_view(tokens@),
            varv == var@,
            v == value as nat,
            expand_onto(toks_view(out@), fullv.skip(i as int), v, varv) == spec_expand(
                fullv,
                v,
                varv,
            ),
        decreases n - i,
    {
        let ghost accv = toks_view(out@);
        let ghost restv = fullv.skip(i as int);
        proof {
            lemma_toks_view_len(tokens@);
            lemma_toks_view_index(tokens@, i as int);
            lemma_toks_view_skip(tokens@, i as int);
            lemma_toks_view_len(tokens@.skip(i as int));
            if i + 1 < n {
                lemma_toks_view_index(tokens@, i as int + 1);
            }
            assert(restv[0] == token_view(tokens@[i as int]));
        }
        // Decide whether this position is a successful paste.
        let mut do_paste = false;
        match &tokens[i] {
            Token::Punct { ch, .. } => {
                if *ch == '~' && i + 1 < n && out.len() > 0 {
                    let last_is_ident = match &out[out.len() - 1] {
                        Token::Ident { .. } => true,
                        _ => false,
                    };
                    if last_is_ident {
                        match &tokens[i + 1] {
                            Token::Ident { name, .. } => {
                                if name.eq(var) {
                                    do_paste = true;
                                }
                            },
                            _ => {},
                        }
                    }
                }
            },
            _ => {},
        }
        proof {
            lemma_toks_view_len(out@);
            if out@.len() > 0 {
                lemma_toks_view_index(out@, out@.len() - 1);
            }
            if i + 1 < n {
                assert(restv[1] == token_view(tokens@[i as int + 1]));
            }
            assert(do_paste == is_paste(accv, restv, varv));
        }
        if do_paste {
            let ghost before = out@;
            let popped = out.pop().unwrap();
            match popped {
                Token::Ident { name, pos } => {
                    let mut pasted = name;
                    let digits = dec_string(value);
                    pasted.append(digits.as_str());
                    let ghost prev = out@;
                    out.push(Token::Ident { name: pasted, pos });
                    proof {
                        lemma_toks_view_drop_last(before);
                        lemma_toks_view_push(prev, Token::Ident { name: pasted, pos });
                        assert(toks_view(out@) =~= accv.drop_last().push(
                            TokenV::Ident {
                                name: accv.last()->Ident_name + dec_str(v),
                                pos: pos_of(accv.last()),
                            },
                        ));
                        assert(fullv.skip(i as int + 2) =~= restv.skip(2));
                    }
                },
                _ => {
                    proof {
                        assert(false);
                    }
                },
            }
            i = i + 2;
        } else {
            let rep: Token = match &tokens[i] {
                Token::Ident { name, pos } => {
                    if name.eq(var) {
                        Token::Lit { text: dec_string(value), pos: *pos }
                    } else {
                        tokens[i].dup()
                    }
                },
                Token::Group { delim, inner, pos } => {
                    let expanded = replace_ident(inner, value, var);
                    Token::Group { delim: *delim, inner: expanded, pos: *pos }
                },
                _ => tokens[i].dup(),
            };
            let ghost prev = out@;
            out.push(rep);
            proof {
                lemma_toks_view_push(prev, rep);
                assert(fullv.skip(i as int + 1) =~= restv.skip(1));
                assert(expand_onto(toks_view(out@), fullv.skip(i as int + 1), v, varv)
                    == spec_expand(fullv, v, varv));
            }
            i = i + 1;
        }
    }
    proof {
        assert(fullv.skip(n as int) =~= Seq::<TokenV>::empty());
    }
    out
}

} // verus!

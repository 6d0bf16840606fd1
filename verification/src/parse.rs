//! The template parser: reads `<ident> in <from> .. [=] <to> { body }`,
//! scans the body once for an explicit `#( ... )*` repeat section, and
//! produces the final token sequence — the repeat section expanded per
//! iteration value, or, when none exists, the whole body repeated.

use vstd::prelude::*;

use crate::decimal::{dec_val, lit_ok, parse_u64};
use crate::expand::{lemma_expand_len_value_independent, replace_ident, spec_expand};
use crate::token::{
    dup_tokens, lemma_toks_view_add, lemma_toks_view_index, lemma_toks_view_len,
    lemma_toks_view_push, pos_of, token_view, toks_view, Delim, Token, TokenV,
};

verus! {

/// A parsed iteration range: `from .. to` or `from ..= to`.
#[derive(Clone, Copy, Debug, PartialEq, Eq, Structural)]
pub enum RangeType {
    Inclusive { from: u64, to: u64 },
    Exclusive { from: u64, to: u64 },
}

/// The first iteration value of a range.
pub open spec fn range_from(r: RangeType) -> nat {
    match r {
        RangeType::Inclusive { from, .. } => from as nat,
        RangeType::Exclusive { from, .. } => from as nat,
    }
}

/// How many iteration values a range yields: `to - from` exclusive,
/// `to - from + 1` inclusive, and zero whenever `from > to`.
pub open spec fn iter_count(r: RangeType) -> nat {
    match r {
        RangeType::Exclusive { from, to } => if from <= to {
            (to - from) as nat
        } else {
            0
        },
        RangeType::Inclusive { from, to } => if from <= to {
            (to - from + 1) as nat
        } else {
            0
        },
    }
}

/// The concatenation of the expansions of `body` for the first `k`
/// iteration values of the range, in increasing order.
pub open spec fn repeat_expand(body: Seq<TokenV>, r: RangeType, var: Seq<char>, k: nat) -> Seq<
    TokenV,
>
    decreases k,
{
    if k == 0 {
        Seq::empty()
    } else {
        repeat_expand(body, r, var, (k - 1) as nat) + spec_expand(
            body,
            (range_from(r) + k - 1) as nat,
            var,
        )
    }
}

/// The concatenation of the expansions of `body` over the whole range.
pub open spec fn repeat_all(body: Seq<TokenV>, r: RangeType, var: Seq<char>) -> Seq<TokenV> {
    repeat_expand(body, r, var, iter_count(r))
}

/// For a valid range (`from <= to`), the iteration count is `to - from`
/// under an exclusive bound and `to - from + 1` under an inclusive one;
/// a range with `from > to` yields no iterations at all.
pub proof fn lemma_iteration_count(r: RangeType)
    ensures
        r matches RangeType::Exclusive { from, to } ==> iter_count(r) == if from <= to {
            (to - from) as int
        } else {
            0
        },
        r matches RangeType::Inclusive { from, to } ==> iter_count(r) == if from <= to {
            (to - from + 1) as int
        } else {
            0
        },
{
}

proof fn lemma_repeat_expand_len(body: Seq<TokenV>, r: RangeType, var: Seq<char>, k: nat)
    ensures
        repeat_expand(body, r, var, k).len() == k * spec_expand(body, range_from(r), var).len(),
    decreases k,
{
    let l = spec_expand(body, range_from(r), var).len();
    if k == 0 {
    } else {
        lemma_repeat_expand_len(body, r, var, (k - 1) as nat);
        lemma_expand_len_value_independent(
            body,
            (range_from(r) + k - 1) as nat,
            range_from(r),
            var,
        );
        assert(((k - 1) as nat) * l + l == k * l) by (nonlinear_arith)
            requires
                k >= 1,
        ;
    }
}

/// Repeating a template over a range emits the same number of tokens for
/// every iteration value: the output holds exactly `iter_count` copies'
/// worth of tokens, one expansion's length each.
pub proof fn lemma_repeat_output_count(body: Seq<TokenV>, r: RangeType, var: Seq<char>)
    ensures
        repeat_all(body, r, var).len() == iter_count(r) * spec_expand(
            body,
            range_from(r),
            var,
        ).len(),
{
    lemma_repeat_expand_len(body, r, var, iter_count(r));
}

/// What a failed invocation reports.
#[derive(Clone, Copy, Debug, PartialEq, Eq, Structural)]
pub enum ErrorKind {
    /// Range bounds missing, not numerals, or malformed `..` / `..=`.
    MalformedRange,
    /// A structural fault: a missing body, trailing tokens, or a
    /// `#( ... )` repeat section not closed by `*`.
    SyntaxError,
    /// The loop-variable position did not hold an identifier.
    IdentifierExpected,
}

/// A diagnostic: what went wrong and the position it went wrong at.
#[derive(Clone, Copy, Debug, PartialEq, Eq, Structural)]
pub struct Error {
    pub kind: ErrorKind,
    pub pos: usize,
}

impl Error {
    /// A short human-readable description, to be rendered together with
    /// the position by the host.
    pub fn message(&self) -> (r: String)
        ensures
            self.kind is MalformedRange ==> r@ == "malformed range"@,
            self.kind is SyntaxError ==> r@ == "syntax error"@,
            self.kind is IdentifierExpected ==> r@ == "identifier expected"@,
    {
        match self.kind {
            ErrorKind::MalformedRange => "malformed range".to_owned(),
            ErrorKind::SyntaxError => "syntax error".to_owned(),
            ErrorKind::IdentifierExpected => "identifier expected".to_owned(),
        }
    }
}

/// Whether a position starts an explicit repeat section: a `#` punctuation
/// immediately followed by a parenthesized group.
pub open spec fn is_repeat_start(ts: Seq<TokenV>) -> bool {
    &&& ts.len() >= 2
    &&& ts[0] matches TokenV::Punct { ch, .. } && ch == '#'
    &&& ts[1] matches TokenV::Group { delim, .. } && delim == Delim::Parenthesis
}

/// Whether the parenthesized group of a repeat section is closed by `*`.
pub open spec fn has_repeat_close(ts: Seq<TokenV>) -> bool {
    ts.len() >= 3 && (ts[2] matches TokenV::Punct { ch, .. } && ch == '*')
}

/// Where an unclosed repeat section is reported: at the token standing
/// where `*` was expected, or at the parenthesized group when the input
/// ends right after it.
pub open spec fn repeat_err_pos(ts: Seq<TokenV>) -> usize {
    if ts.len() >= 3 {
        pos_of(ts[2])
    } else {
        pos_of(ts[1])
    }
}

/// One left-to-right scan of a token sequence. Each `#( inner )*` is
/// replaced by the expansion of `inner` over the whole range; groups are
/// rebuilt around the scan of their contents; everything else is copied
/// verbatim. Returns the scanned output and whether any repeat section
/// was found, or the diagnostic for a repeat section not closed by `*`.
pub open spec fn spec_scan(ts: Seq<TokenV>, r: RangeType, var: Seq<char>) -> Result<
    (Seq<TokenV>, bool),
    Error,
>
    decreases ts,
{
    if ts.len() == 0 {
        Ok((Seq::empty(), false))
    } else if is_repeat_start(ts) {
        if has_repeat_close(ts) {
            match spec_scan(ts.skip(3), r, var) {
                Ok(rest) => Ok((repeat_all(ts[1]->Group_inner, r, var) + rest.0, true)),
                Err(e) => Err(e),
            }
        } else {
            Err(Error { kind: ErrorKind::SyntaxError, pos: repeat_err_pos(ts) })
        }
    } else {
        match ts[0] {
            TokenV::Group { delim, inner, pos } => match spec_scan(inner, r, var) {
                Ok(in_res) => match spec_scan(ts.skip(1), r, var) {
                    Ok(rest) => Ok(
                        (
                            seq![TokenV::Group { delim, inner: in_res.0, pos }] + rest.0,
                            in_res.1 || rest.1,
                        ),
                    ),
                    Err(e) => Err(e),
                },
                Err(e) => Err(e),
            },
            _ => match spec_scan(ts.skip(1), r, var) {
                Ok(rest) => Ok((seq![ts[0]] + rest.0, rest.1)),
                Err(e) => Err(e),
            },
        }
    }
}

/// A partial scan state (`added` tokens emitted, `found` sections seen)
/// composed with the scan of the remaining input.
pub open spec fn scan_compose(
    added: Seq<TokenV>,
    found: bool,
    rest: Result<(Seq<TokenV>, bool), Error>,
) -> Result<(Seq<TokenV>, bool), Error> {
    match rest {
        Ok(o) => Ok((added + o.0, found || o.1)),
        Err(e) => Err(e),
    }
}

impl RangeType {
    /// Appends to `out` the expansion of `body` for every iteration value
    /// of this range, in increasing order.
    pub fn repeat_range(&self, body: &Vec<Token>, var: &String, out: &mut Vec<Token>)
        ensures
            toks_view(final(out)@) == toks_view(old(out)@) + repeat_all(toks_view(body@), *self, var@),
    {
        let ghost initv = toks_view(old(out)@);
        let ghost bodyv = toks_view(body@);
        let ghost varv = var@;
        let ghost rg = *self;
        let (from, to, incl): (u64, u64, bool) = match self {
            RangeType::Inclusive { from, to } => (*from, *to, true),
            RangeType::Exclusive { from, to } => (*from, *to, false),
        };
        proof {
            assert(initv + repeat_expand(bodyv, rg, varv, 0) =~= initv);
        }
        if incl {
            if from > to {
                return ;
            }
            let mut v: u64 = from;
            loop
                invariant_except_break
                    rg == *self,
                    bodyv == toks_view(body@),
                    varv == var@,
                    rg matches RangeType::Inclusive { from: f2, to: t2 } && f2 == from && t2 == to,
                    from <= v <= to,
                    toks_view(out@) == initv + repeat_expand(bodyv, rg, varv, (v - from) as nat),
                ensures
                    toks_view(out@) == initv + repeat_expand(bodyv, rg, varv, iter_count(rg)),
                decreases to - v,
            {
                let ghost kk = (v - from) as nat;
                let mut piece = replace_ident(body, v, var);
                let ghost prev = out@;
                let ghost pieceseq = piece@;
                out.append(&mut piece);
                proof {
                    lemma_toks_view_add(prev, pieceseq);
                    assert((initv + repeat_expand(bodyv, rg, varv, kk)) + toks_view(pieceseq)
                        =~= initv + (repeat_expand(bodyv, rg, varv, kk) + toks_view(pieceseq)));
                    assert(repeat_expand(bodyv, rg, varv, kk + 1) == repeat_expand(
                        bodyv,
                        rg,
                        varv,
                        kk,
                    ) + spec_expand(bodyv, (range_from(rg) + kk) as nat, varv));
                }
                if v == to {
                    break ;
                }
                v = v + 1;
            }
        } else {
            let mut v: u64 = from;
            while v < to
                invariant
                    rg == *self,
                    bodyv == toks_view(body@),
                    varv == var@,
                    rg matches RangeType::Exclusive { from: f2, to: t2 } && f2 == from && t2 == to,
                    from <= v,
                    v <= to || (to < from && v == from),
                    toks_view(out@) == initv + repeat_expand(bodyv, rg, varv, (v - from) as nat),
                decreases to - v,
            {
                let ghost kk = (v - from) as nat;
                let mut piece = replace_ident(body, v, var);
                let ghost prev = out@;
                let ghost pieceseq = piece@;
                out.append(&mut piece);
                proof {
                    lemma_toks_view_add(prev, pieceseq);
                    assert((initv + repeat_expand(bodyv, rg, varv, kk)) + toks_view(pieceseq)
                        =~= initv + (repeat_expand(bodyv, rg, varv, kk) + toks_view(pieceseq)));
                    assert(repeat_expand(bodyv, rg, varv, kk + 1) == repeat_expand(
                        bodyv,
                        rg,
                        varv,
                        kk,
                    ) + spec_expand(bodyv, (range_from(rg) + kk) as nat, varv));
                }
                v = v + 1;
            }
        }
    }
}

/// Whether a token is the keyword `in`.
pub open spec fn is_kw_in(t: TokenV) -> bool {
    t matches TokenV::Ident { name, .. } && name == "in"@
}

/// Whether a token is a literal accepted as a range bound.
pub open spec fn is_range_lit(t: TokenV) -> bool {
    t matches TokenV::Lit { text, .. } && lit_ok(text)
}

/// The value of a range-bound literal.
pub open spec fn lit_val(t: TokenV) -> nat {
    dec_val(t->Lit_text)
}

/// Whether a token is the given single punctuation character.
pub open spec fn is_punct_ch(t: TokenV, c: char) -> bool {
    t matches TokenV::Punct { ch, .. } && ch == c
}

/// Whether a token is a braced group.
pub open spec fn is_brace_group(t: TokenV) -> bool {
    t matches TokenV::Group { delim, .. } && delim == Delim::Brace
}

/// The position an error about token index `i` is reported at: the
/// token's own position, or the last token's when the input ends
/// before `i`, or zero on empty input.
pub open spec fn end_pos(ts: Seq<TokenV>, i: int) -> usize {
    if 0 <= i < ts.len() {
        pos_of(ts[i])
    } else if ts.len() > 0 {
        pos_of(ts[ts.len() - 1])
    } else {
        0
    }
}

/// The whole invocation `var in from .. [=] to { body }`: the header is
/// read, the body is scanned once, and the result is the scan's output
/// when an explicit repeat section was found, or the scanned body
/// expanded once per iteration value and concatenated in increasing
/// order when none was.
pub open spec fn spec_run(input: Seq<TokenV>) -> Result<Seq<TokenV>, Error> {
    if !(input.len() > 0 && input[0] is Ident) {
        Err(Error { kind: ErrorKind::IdentifierExpected, pos: end_pos(input, 0) })
    } else if !(input.len() > 1 && is_kw_in(input[1])) {
        Err(Error { kind: ErrorKind::MalformedRange, pos: end_pos(input, 1) })
    } else if !(input.len() > 2 && is_range_lit(input[2])) {
        Err(Error { kind: ErrorKind::MalformedRange, pos: end_pos(input, 2) })
    } else if !(input.len() > 3 && is_punct_ch(input[3], '.')) {
        Err(Error { kind: ErrorKind::MalformedRange, pos: end_pos(input, 3) })
    } else if !(input.len() > 4 && is_punct_ch(input[4], '.')) {
        Err(Error { kind: ErrorKind::MalformedRange, pos: end_pos(input, 4) })
    } else {
        let var = input[0]->Ident_name;
        let fromv = lit_val(input[2]);
        let inclusive = input.len() > 5 && is_punct_ch(input[5], '=');
        let ti: int = if inclusive {
            6
        } else {
            5
        };
        if !(input.len() > ti && is_range_lit(input[ti])) {
            Err(Error { kind: ErrorKind::MalformedRange, pos: end_pos(input, ti) })
        } else {
            let tov = lit_val(input[ti]);
            let r = if inclusive {
                RangeType::Inclusive { from: fromv as u64, to: tov as u64 }
            } else {
                RangeType::Exclusive { from: fromv as u64, to: tov as u64 }
            };
            if !(input.len() > ti + 1 && is_brace_group(input[ti + 1])) {
                Err(Error { kind: ErrorKind::SyntaxError, pos: end_pos(input, ti + 1) })
            } else if input.len() > ti + 2 {
                Err(Error { kind: ErrorKind::SyntaxError, pos: pos_of(input[ti + 2]) })
            } else {
                match spec_scan(input[ti + 1]->Group_inner, r, var) {
                    Err(e) => Err(e),
                    Ok(o) => if o.1 {
                        Ok(o.0)
                    } else {
                        Ok(repeat_all(o.0, r, var))
                    },
                }
            }
        }
    }
}

/// The position an error about token index `i` is reported at.
fn err_at(input: &Vec<Token>, i: usize) -> (p: usize)
    ensures
        p == end_pos(toks_view(input@), i as int),
{
    proof {
        lemma_toks_view_len(input@);
        if (i as int) < input@.len() {
            lemma_toks_view_index(input@, i as int);
        } else if input@.len() > 0 {
            lemma_toks_view_index(input@, input@.len() - 1);
        }
    }
    if i < input.len() {
        input[i].pos()
    } else if input.len() > 0 {
        input[input.len() - 1].pos()
    } else {
        0
    }
}

/// The fully produced content of one invocation, ready for emission.
pub struct Template {
    pub content: Vec<Token>,
}

impl Template {
    /// Parses one invocation and produces its final token sequence.
    pub fn parse(input: &Vec<Token>) -> (r: Result<Template, Error>)
        ensures
            match spec_run(toks_view(input@)) {
                Ok(o) => r matches Ok(t) && toks_view(t.content@) == o,
                Err(e) => r matches Err(e2) && e2 == e,
            },
    {
        let ghost inputv = toks_view(input@);
        let n = input.len();
        proof {
            lemma_toks_view_len(input@);
        }
        if n == 0 {
            return Err(Error { kind: ErrorKind::IdentifierExpected, pos: err_at(input, 0) });
        }
        proof {
            lemma_toks_view_index(input@, 0);
        }
        let var: String = match &input[0] {
            Token::Ident { name, .. } => name.clone(),
            _ => {
                return Err(
                    Error { kind: ErrorKind::IdentifierExpected, pos: err_at(input, 0) },
                );
            },
        };
        let kw: String = "in".to_owned();
        let mut ok_in = false;
        if n > 1 {
            proof {
                lemma_toks_view_index(input@, 1);
            }
            match &input[1] {
                Token::Ident { name, .. } => {
                    if name.eq(&kw) {
                        ok_in = true;
                    }
                },
                _ => {},
            }
        }
        if !ok_in {
            return Err(Error { kind: ErrorKind::MalformedRange, pos: err_at(input, 1) });
        }
        if n <= 2 {
            return Err(Error { kind: ErrorKind::MalformedRange, pos: err_at(input, 2) });
        }
        proof {
            lemma_toks_view_index(input@, 2);
        }
        let fromn: u64 = match &input[2] {
            Token::Lit { text, .. } => {
                match parse_u64(text.as_str()) {
                    Some(v) => v,
                    None => {
                        return Err(
                            Error { kind: ErrorKind::MalformedRange, pos: err_at(input, 2) },
                        );
                    },
                }
            },
            _ => {
                return Err(Error { kind: ErrorKind::MalformedRange, pos: err_at(input, 2) });
            },
        };
        let mut dots: u8 = 0;
        if n > 3 {
            proof {
                lemma_toks_view_index(input@, 3);
            }
            match &input[3] {
                Token::Punct { ch, .. } => {
                    if *ch == '.' {
                        dots = 1;
                    }
                },
                _ => {},
            }
        }
        if dots != 1 {
            return Err(Error { kind: ErrorKind::MalformedRange, pos: err_at(input, 3) });
        }
        if n > 4 {
            proof {
                lemma_toks_view_index(input@, 4);
            }
            match &input[4] {
                Token::Punct { ch, .. } => {
                    if *ch == '.' {
                        dots = 2;
                    }
                },
                _ => {},
            }
        }
        if dots != 2 {
            return Err(Error { kind: ErrorKind::MalformedRange, pos: err_at(input, 4) });
        }
        let mut inclusive = false;
        if n > 5 {
            proof {
                lemma_toks_view_index(input@, 5);
            }
            match &input[5] {
                Token::Punct { ch, .. } => {
                    if *ch == '=' {
                        inclusive = true;
                    }
                },
                _ => {},
            }
        }
        let ti: usize = if inclusive {
            6
        } else {
            5
        };
        if n <= ti {
            return Err(Error { kind: ErrorKind::MalformedRange, pos: err_at(input, ti) });
        }
        proof {
            lemma_toks_view_index(input@, ti as int);
        }
        let ton: u64 = match &input[ti] {
            Token::Lit { text, .. } => {
                match parse_u64(text.as_str()) {
                    Some(v) => v,
                    None => {
                        return Err(
                            Error { kind: ErrorKind::MalformedRange, pos: err_at(input, ti) },
                        );
                    },
                }
            },
            _ => {
                return Err(Error { kind: ErrorKind::MalformedRange, pos: err_at(input, ti) });
            },
        };
        let range_type = if inclusive {
            RangeType::Inclusive { from: fromn, to: ton }
        } else {
            RangeType::Exclusive { from: fromn, to: ton }
        };
        let bi: usize = ti + 1;
        if n <= bi {
            return Err(Error { kind: ErrorKind::SyntaxError, pos: err_at(input, bi) });
        }
        proof {
            lemma_toks_view_index(input@, bi as int);
        }
        match &input[bi] {
            Token::Group { delim, inner, .. } => {
                if !(*delim == Delim::Brace) {
                    return Err(Error { kind: ErrorKind::SyntaxError, pos: err_at(input, bi) });
                }
                if n > bi + 1 {
                    proof {
                        lemma_toks_view_index(input@, bi as int + 1);
                    }
                    return Err(
                        Error { kind: ErrorKind::SyntaxError, pos: input[bi + 1].pos() },
                    );
                }
                let mut content: Vec<Token> = Vec::new();
                proof {
                    assert(toks_view(content@) =~= Seq::<TokenV>::empty());
                }
                let found = match Template::eval_token_tree(
                    inner,
                    &range_type,
                    &var,
                    &mut content,
                ) {
                    Ok(f) => f,
                    Err(e) => {
                        return Err(e);
                    },
                };
                proof {
                    match spec_scan(toks_view(inner@), range_type, var@) {
                        Ok(o) => {
                            assert(Seq::<TokenV>::empty() + o.0 =~= o.0);
                        },
                        Err(_) => {},
                    }
                }
                if !found {
                    let mut repeated: Vec<Token> = Vec::new();
                    proof {
                        assert(toks_view(repeated@) =~= Seq::<TokenV>::empty());
                    }
                    range_type.repeat_range(&content, &var, &mut repeated);
                    proof {
                        assert(Seq::<TokenV>::empty() + repeat_all(
                            toks_view(content@),
                            range_type,
                            var@,
                        ) =~= repeat_all(toks_view(content@), range_type, var@));
                    }
                    return Ok(Template { content: repeated });
                }
                Ok(Template { content })
            },
            _ => {
                Err(Error { kind: ErrorKind::SyntaxError, pos: err_at(input, bi) })
            },
        }
    }

    /// Emits the produced content.
    pub fn expand(&self) -> (r: Vec<Token>)
        ensures
            toks_view(r@) == toks_view(self.content@),
    {
        dup_tokens(&self.content)
    }
}

impl Template {
    /// One left-to-right scan of `tokens`, appended to `out`: expands
    /// each `#( ... )*` repeat section over the range, rebuilds groups
    /// around the scan of their contents, copies everything else
    /// verbatim, and reports whether any repeat section was found.
    /// Fails exactly where a `#( ... )` section is not closed by `*`.
    pub fn eval_token_tree(
        tokens: &Vec<Token>,
        range_type: &RangeType,
        replace: &String,
        out: &mut Vec<Token>,
    ) -> (found: Result<bool, Error>)
        ensures
            match spec_scan(toks_view(tokens@), *range_type, replace@) {
                Ok(o) => {
                    &&& found matches Ok(f) && f == o.1
                    &&& toks_view(final(out)@) == toks_view(old(out)@) + o.0
                },
                Err(e) => found matches Err(e2) && e2 == e,
            },
        decreases tokens@,
    {
        let ghost fullv = toks_view(tokens@);
        let ghost rg = *range_type;
        let ghost varv = replace@;
        let ghost initv = toks_view(old(out)@);
        let mut foundb = false;
        let ghost mut added: Seq<TokenV> = Seq::empty();
        let mut i: usize = 0;
        let n = tokens.len();
        proof {
            lemma_toks_view_len(tokens@);
            assert(fullv.skip(0) =~= fullv);
            assert(initv + added =~= initv);
            match spec_scan(fullv, rg, varv) {
                Ok(o) => {
                    assert(Seq::<TokenV>::empty() + o.0 =~= o.0);
                },
                Err(_) => {},
            }
        }
        while i < n
            invariant
                n == tokens@.len(),
                fullv == toks_view(tokens@),
                rg == *range_type,
                varv == replace@,
                i <= n,
                toks_view(out@) == initv + added,
                scan_compose(added, foundb, spec_scan(fullv.skip(i as int), rg, varv)) == spec_scan(
                    fullv,
                    rg,
                    varv,
                ),
            decreases n - i,
        {
            let ghost restv = fullv.skip(i as int);
            let ghost added0 = added;
            let ghost found0 = foundb;
            proof {
                lemma_toks_view_len(tokens@);
                lemma_toks_view_index(tokens@, i as int);
                if i + 1 < n {
                    lemma_toks_view_index(tokens@, i as int + 1);
                }
                if i + 2 < n {
                    lemma_toks_view_index(tokens@, i as int + 2);
                }
                assert(restv[0] == token_view(tokens@[i as int]));
            }
            // Does an explicit repeat section start here?
            let mut is_rs = false;
            match &tokens[i] {
                Token::Punct { ch, .. } => {
                    if *ch == '#' && i + 1 < n {
                        match &tokens[i + 1] {
                            Token::Group { delim, .. } => {
                                if *delim == Delim::Parenthesis {
                                    is_rs = true;
                                }
                            },
                            _ => {},
                        }
                    }
                },
                _ => {},
            }
            proof {
                assert(is_rs == is_repeat_start(restv));
            }
            if is_rs {
                let mut close_ok = false;
                if i + 2 < n {
                    match &tokens[i + 2] {
                        Token::Punct { ch, .. } => {
                            if *ch == '*' {
                                close_ok = true;
                            }
                        },
                        _ => {},
                    }
                }
                proof {
                    assert(close_ok == has_repeat_close(restv));
                }
                if !close_ok {
                    let ep: usize = if i + 2 < n {
                        tokens[i + 2].pos()
                    } else {
                        tokens[i + 1].pos()
                    };
                    proof {
                        assert(ep == repeat_err_pos(restv));
                        assert(spec_scan(restv, rg, varv) == Err::<(Seq<TokenV>, bool), Error>(
                            Error { kind: ErrorKind::SyntaxError, pos: ep },
                        ));
                    }
                    return Err(Error { kind: ErrorKind::SyntaxError, pos: ep });
                }
                let ghost ra = repeat_all(restv[1]->Group_inner, rg, varv);
                match &tokens[i + 1] {
                    Token::Group { inner, .. } => {
                        let ghost prevout = out@;
                        range_type.repeat_range(inner, replace, out);
                        proof {
                            assert(restv[1]->Group_inner == toks_view(inner@));
                            added = added0 + ra;
                            assert((initv + added0) + ra =~= initv + added);
                        }
                    },
                    _ => {
                        proof {
                            assert(false);
                        }
                    },
                }
                foundb = true;
                i = i + 3;
                proof {
                    assert(fullv.skip(i as int) =~= restv.skip(3));
                    match spec_scan(restv.skip(3), rg, varv) {
                        Ok(o) => {
                            assert((added0 + ra) + o.0 =~= added0 + (ra + o.0));
                        },
                        Err(_) => {},
                    }
                }
            } else {
                match &tokens[i] {
                    Token::Group { delim, inner, pos } => {
                        let ghost innerv = toks_view(inner@);
                        let mut gout: Vec<Token> = Vec::new();
                        proof {
                            assert(toks_view(gout@) =~= Seq::<TokenV>::empty());
                        }
                        let rr = Template::eval_token_tree(inner, range_type, replace, &mut gout);
                        match rr {
                            Err(e) => {
                                proof {
                                    assert(spec_scan(restv, rg, varv) == Err::<
                                        (Seq<TokenV>, bool),
                                        Error,
                                    >(e));
                                }
                                return Err(e);
                            },
                            Ok(f2) => {
                                let g = Token::Group { delim: *delim, inner: gout, pos: *pos };
                                let ghost gtok = g;
                                let ghost gv = token_view(g);
                                let ghost prevout = out@;
                                out.push(g);
                                proof {
                                    lemma_toks_view_push(prevout, gtok);
                                    match spec_scan(innerv, rg, varv) {
                                        Ok(in_res) => {
                                            assert(Seq::<TokenV>::empty() + in_res.0 =~= in_res.0);
                                            assert(gv == TokenV::Group {
                                                delim: *delim,
                                                inner: in_res.0,
                                                pos: *pos,
                                            });
                                        },
                                        Err(_) => {},
                                    }
                                    added = added0.push(gv);
                                    assert((initv + added0).push(gv) =~= initv + added);
                                    assert(fullv.skip(i as int + 1) =~= restv.skip(1));
                                    match spec_scan(restv.skip(1), rg, varv) {
                                        Ok(o) => {
                                            assert(added0.push(gv) + o.0 =~= added0 + (seq![gv]
                                                + o.0));
                                        },
                                        Err(_) => {},
                                    }
                                }
                                foundb = foundb || f2;
                                i = i + 1;
                            },
                        }
                    },
                    _ => {
                        let cp = tokens[i].dup();
                        let ghost cptok = cp;
                        let ghost tv = token_view(cp);
                        let ghost prevout = out@;
                        out.push(cp);
                        proof {
                            lemma_toks_view_push(prevout, cptok);
                            assert(tv == restv[0]);
                            added = added0.push(tv);
                            assert((initv + added0).push(tv) =~= initv + added);
                            assert(fullv.skip(i as int + 1) =~= restv.skip(1));
                            match spec_scan(restv.skip(1), rg, varv) {
                                Ok(o) => {
                                    assert(added0.push(tv) + o.0 =~= added0 + (seq![tv] + o.0));
                                },
                                Err(_) => {},
                            }
                        }
                        i = i + 1;
                    },
                }
            }
        }
        proof {
            assert(fullv.skip(n as int) =~= Seq::<TokenV>::empty());
            assert(added + Seq::<TokenV>::empty() =~= added);
        }
        Ok(foundb)
    }
}

} // verus!

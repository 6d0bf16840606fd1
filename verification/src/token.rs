//! The token data model: the atomic units of syntax that the engine
//! consumes and produces, together with their mathematical view.

use vstd::prelude::*;

verus! {

/// The delimiter kind of a group token.
#[derive(Clone, Copy, Debug, PartialEq, Eq, Structural)]
pub enum Delim {
    Brace,
    Bracket,
    Parenthesis,
}

/// One unit of syntax. A `Group` carries a whole delimited sub-sequence,
/// so tokens form a strict tree. The `pos` field is an opaque position
/// handle carried through for diagnostics only.
#[derive(Debug, PartialEq, Eq)]
pub enum Token {
    Ident { name: String, pos: usize },
    Lit { text: String, pos: usize },
    Punct { ch: char, pos: usize },
    Group { delim: Delim, inner: Vec<Token>, pos: usize },
}

/// The mathematical model of a `Token`: the same tree over `Seq<char>`
/// and `Seq<TokenV>`.
pub enum TokenV {
    Ident { name: Seq<char>, pos: usize },
    Lit { text: Seq<char>, pos: usize },
    Punct { ch: char, pos: usize },
    Group { delim: Delim, inner: Seq<TokenV>, pos: usize },
}

/// The view of a single token.
pub open spec fn token_view(t: Token) -> TokenV
    decreases t,
{
    match t {
        Token::Ident { name, pos } => TokenV::Ident { name: name@, pos },
        Token::Lit { text, pos } => TokenV::Lit { text: text@, pos },
        Token::Punct { ch, pos } => TokenV::Punct { ch, pos },
        Token::Group { delim, inner, pos } => TokenV::Group {
            delim,
            inner: toks_view(inner@),
            pos,
        },
    }
}

/// The view of a token sequence, element by element.
pub open spec fn toks_view(ts: Seq<Token>) -> Seq<TokenV>
    decreases ts,
{
    if ts.len() == 0 {
        Seq::empty()
    } else {
        seq![token_view(ts[0])] + toks_view(ts.skip(1))
    }
}

/// The position a token carries, for diagnostics.
pub open spec fn pos_of(t: TokenV) -> usize {
    match t {
        TokenV::Ident { pos, .. } => pos,
        TokenV::Lit { pos, .. } => pos,
        TokenV::Punct { pos, .. } => pos,
        TokenV::Group { pos, .. } => pos,
    }
}

/// `toks_view` maps the sequence element by element.
pub broadcast proof fn lemma_toks_view_len(ts: Seq<Token>)
    ensures
        #[trigger] toks_view(ts).len() == ts.len(),
    decreases ts,
{
    if ts.len() > 0 {
        lemma_toks_view_len(ts.skip(1));
    }
}

pub broadcast proof fn lemma_toks_view_index(ts: Seq<Token>, i: int)
    requires
        0 <= i < ts.len(),
    ensures
        toks_view(ts).len() == ts.len(),
        #[trigger] toks_view(ts)[i] == token_view(ts[i]),
    decreases ts,
{
    lemma_toks_view_len(ts);
    if i > 0 {
        lemma_toks_view_index(ts.skip(1), i - 1);
    }
}

pub broadcast proof fn lemma_toks_view_push(ts: Seq<Token>, t: Token)
    ensures
        #[trigger] toks_view(ts.push(t)) == toks_view(ts).push(token_view(t)),
{
    lemma_toks_view_len(ts);
    lemma_toks_view_len(ts.push(t));
    assert forall|i: int| 0 <= i < ts.len() + 1 implies toks_view(ts.push(t))[i] == toks_view(
        ts,
    ).push(token_view(t))[i] by {
        lemma_toks_view_index(ts.push(t), i);
        if i < ts.len() {
            lemma_toks_view_index(ts, i);
        }
    }
    assert(toks_view(ts.push(t)) =~= toks_view(ts).push(token_view(t)));
}

pub broadcast proof fn lemma_toks_view_skip(ts: Seq<Token>, i: int)
    requires
        0 <= i <= ts.len(),
    ensures
        #[trigger] toks_view(ts.skip(i)) == toks_view(ts).skip(i),
{
    lemma_toks_view_len(ts);
    lemma_toks_view_len(ts.skip(i));
    assert forall|j: int| 0 <= j < ts.len() - i implies toks_view(ts.skip(i))[j] == toks_view(
        ts,
    ).skip(i)[j] by {
        lemma_toks_view_index(ts.skip(i), j);
        lemma_toks_view_index(ts, i + j);
    }
    assert(toks_view(ts.skip(i)) =~= toks_view(ts).skip(i));
}

pub broadcast proof fn lemma_toks_view_add(a: Seq<Token>, b: Seq<Token>)
    ensures
        #[trigger] toks_view(a + b) == toks_view(a) + toks_view(b),
{
    lemma_toks_view_len(a);
    lemma_toks_view_len(b);
    lemma_toks_view_len(a + b);
    assert forall|i: int| 0 <= i < a.len() + b.len() implies toks_view(a + b)[i] == (toks_view(a)
        + toks_view(b))[i] by {
        lemma_toks_view_index(a + b, i);
        if i < a.len() {
            lemma_toks_view_index(a, i);
            assert((a + b)[i] == a[i]);
        } else {
            lemma_toks_view_index(b, i - a.len());
            assert((a + b)[i] == b[i - a.len()]);
        }
    }
    assert(toks_view(a + b) =~= toks_view(a) + toks_view(b));
}

pub broadcast proof fn lemma_toks_view_drop_last(ts: Seq<Token>)
    requires
        ts.len() > 0,
    ensures
        #[trigger] toks_view(ts.drop_last()) == toks_view(ts).drop_last(),
{
    lemma_toks_view_len(ts);
    lemma_toks_view_take(ts, ts.len() - 1);
    assert(ts.drop_last() =~= ts.take(ts.len() - 1));
    assert(toks_view(ts).drop_last() =~= toks_view(ts).take(ts.len() - 1));
}

pub broadcast proof fn lemma_toks_view_take(ts: Seq<Token>, i: int)
    requires
        0 <= i <= ts.len(),
    ensures
        #[trigger] toks_view(ts.take(i)) == toks_view(ts).take(i),
{
    lemma_toks_view_len(ts);
    lemma_toks_view_len(ts.take(i));
    assert forall|j: int| 0 <= j < i implies toks_view(ts.take(i))[j] == toks_view(ts).take(
        i,
    )[j] by {
        lemma_toks_view_index(ts.take(i), j);
        lemma_toks_view_index(ts, j);
    }
    assert(toks_view(ts.take(i)) =~= toks_view(ts).take(i));
}

impl Token {
    /// The position this token carries.
    pub fn pos(&self) -> (p: usize)
        ensures
            p == pos_of(token_view(*self)),
    {
        match self {
            Token::Ident { pos, .. } => *pos,
            Token::Lit { pos, .. } => *pos,
            Token::Punct { ch: _, pos } => *pos,
            Token::Group { pos, .. } => *pos,
        }
    }

    /// A deep copy whose view is the same tree.
    pub fn dup(&self) -> (r: Token)
        ensures
            token_view(r) == token_view(*self),
        decreases *self,
    {
        match self {
            Token::Ident { name, pos } => Token::Ident { name: name.clone(), pos: *pos },
            Token::Lit { text, pos } => Token::Lit { text: text.clone(), pos: *pos },
            Token::Punct { ch, pos } => Token::Punct { ch: *ch, pos: *pos },
            Token::Group { delim, inner, pos } => {
                let copy = dup_tokens(inner);
                Token::Group { delim: *delim, inner: copy, pos: *pos }
            },
        }
    }
}

/// A deep copy of a whole sequence of tokens.
pub fn dup_tokens(ts: &Vec<Token>) -> (r: Vec<Token>)
    ensures
        toks_view(r@) == toks_view(ts@),
    decreases ts@,
{
    let mut r: Vec<Token> = Vec::new();
    let mut i: usize = 0;
    proof {
        lemma_toks_view_take(ts@, 0);
        assert(toks_view(r@) =~= toks_view(ts@).take(0));
    }
    while i < ts.len()
        invariant
            i <= ts.len(),
            toks_view(r@) == toks_view(ts@).take(i as int),
        decreases ts@.len() - i,
    {
        let t = ts[i].dup();
        let ghost prev = r@;
        r.push(t);
        proof {
            lemma_toks_view_push(prev, t);
            lemma_toks_view_len(ts@);
            lemma_toks_view_index(ts@, i as int);
            assert(toks_view(ts@).take(i as int + 1) =~= toks_view(ts@).take(i as int).push(
                toks_view(ts@)[i as int],
            ));
        }
        i = i + 1;
    }
    proof {
        lemma_toks_view_len(ts@);
        assert(toks_view(ts@).take(ts@.len() as int) =~= toks_view(ts@));
    }
    r
}

} // verus!

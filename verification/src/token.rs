//! The recursive token-tree data model: atomic leaves and delimited groups.

use vstd::prelude::*;

verus! {

/// The delimiter kind of a token group.
#[derive(Clone, Copy, PartialEq, Eq, Structural, Debug)]
pub enum Delim {
    Paren,
    Bracket,
    Brace,
    /// An invisible delimiter, as produced by macro metavariable expansion.
    Implicit,
}

/// One node of a token tree.
///
/// A `Str` leaf is a string literal; it carries an opaque site handle `u64`
/// (so a caller can map diagnostics and rebuilt literals back to the source
/// position it came from) and the literal's decoded text value. A `Verbatim`
/// leaf stands for the token sequence obtained by re-tokenizing its source
/// text; embedded expressions pass through the transcriber this way, opaquely.
pub enum Token {
    /// An identifier, by its text.
    Ident(String),
    /// A punctuation character; the flag is true when it is joined to the
    /// following punctuation character (as in the first colon of `::`).
    Punct(char, bool),
    /// A string literal: site handle and decoded text value.
    Str(u64, String),
    /// Any other atomic token (numeric literals, lifetimes, ...), by its text.
    Other(String),
    /// A delimited group of nested tokens.
    Group(Delim, Vec<Token>),
    /// The token sequence that re-tokenizing this source text yields.
    Verbatim(String),
}

/// The mathematical model of a token: strings become character sequences and
/// group children become sequences of models.
pub enum TokenModel {
    Ident(Seq<char>),
    Punct(char, bool),
    Str(u64, Seq<char>),
    Other(Seq<char>),
    Group(Delim, Seq<TokenModel>),
    Verbatim(Seq<char>),
}

impl Token {
    /// The model of one token.
    pub open spec fn model(self) -> TokenModel
        decreases self,
    {
        match self {
            Token::Ident(s) => TokenModel::Ident(s@),
            Token::Punct(c, j) => TokenModel::Punct(c, j),
            Token::Str(sid, v) => TokenModel::Str(sid, v@),
            Token::Other(s) => TokenModel::Other(s@),
            Token::Group(d, ts) => TokenModel::Group(d, Token::models(ts@)),
            Token::Verbatim(s) => TokenModel::Verbatim(s@),
        }
    }

    /// The model of a token sequence, elementwise.
    pub open spec fn models(ts: Seq<Token>) -> Seq<TokenModel>
        decreases ts,
    {
        if ts.len() == 0 {
            Seq::empty()
        } else {
            seq![ts[0].model()] + Token::models(ts.subrange(1, ts.len() as int))
        }
    }
}

impl Token {
    /// Deep copy: the copy has the same model as the original.
    #[verifier::loop_isolation(false)]
    pub fn duplicate(&self) -> (r: Token)
        ensures
            r.model() == self.model(),
        decreases *self,
    {
        match self {
            Token::Ident(s) => Token::Ident(s.clone()),
            Token::Punct(c, j) => Token::Punct(*c, *j),
            Token::Str(sid, v) => Token::Str(*sid, v.clone()),
            Token::Other(s) => Token::Other(s.clone()),
            Token::Verbatim(s) => Token::Verbatim(s.clone()),
            Token::Group(d, ts) => {
                let mut out: Vec<Token> = Vec::new();
                let mut i: usize = 0;
                while i < ts.len()
                    invariant
                        i <= ts.len(),
                        out@.len() == i,
                        forall|j: int| 0 <= j < i ==> #[trigger] out@[j].model() == ts@[j].model(),
                    decreases ts.len() - i,
                {
                    proof {
                        assert(decreases_to!(*self => *ts));
                        assert(decreases_to!(*ts => ts[i as int]));
                    }
                    let t = ts[i].duplicate();
                    out.push(t);
                    i = i + 1;
                }
                proof {
                    lemma_models_ext(out@, ts@);
                }
                Token::Group(*d, out)
            },
        }
    }

    /// Deep equality: true exactly when the two tokens have the same model.
    #[verifier::loop_isolation(false)]
    pub fn deep_eq(&self, other: &Token) -> (r: bool)
        ensures
            r <==> self.model() == other.model(),
        decreases *self,
    {
        match self {
            Token::Ident(a) => match other {
                Token::Ident(b) => *a == *b,
                _ => false,
            },
            Token::Punct(a, aj) => match other {
                Token::Punct(b, bj) => *a == *b && *aj == *bj,
                _ => false,
            },
            Token::Str(asid, av) => match other {
                Token::Str(bsid, bv) => *asid == *bsid && *av == *bv,
                _ => false,
            },
            Token::Other(a) => match other {
                Token::Other(b) => *a == *b,
                _ => false,
            },
            Token::Verbatim(a) => match other {
                Token::Verbatim(b) => *a == *b,
                _ => false,
            },
            Token::Group(ad, ats) => match other {
                Token::Group(bd, bts) => {
                if !(*ad == *bd) || ats.len() != bts.len() {
                    proof {
                        lemma_models_index(ats@);
                        lemma_models_index(bts@);
                    }
                    false
                } else {
                    let mut i: usize = 0;
                    let mut same: bool = true;
                    while i < ats.len()
                        invariant
                            i <= ats.len(),
                            ats@.len() == bts@.len(),
                            same <==> (forall|j: int|
                                0 <= j < i ==> #[trigger] ats@[j].model() == bts@[j].model()),
                        decreases ats.len() - i,
                    {
                        proof {
                            assert(decreases_to!(*self => *ats));
                            assert(decreases_to!(*ats => ats[i as int]));
                        }
                        if !ats[i].deep_eq(&bts[i]) {
                            same = false;
                        }
                        i = i + 1;
                    }
                    proof {
                        lemma_models_index(ats@);
                        lemma_models_index(bts@);
                        if same {
                            assert(Token::models(ats@) =~= Token::models(bts@));
                        } else {
                            assert(exists|j: int|
                                0 <= j < ats@.len() && !(#[trigger] ats@[j].model()
                                    == bts@[j].model()));
                            let j = choose|j: int|
                                0 <= j < ats@.len() && !(#[trigger] ats@[j].model()
                                    == bts@[j].model());
                            assert(Token::models(ats@)[j] == ats@[j].model());
                            assert(Token::models(bts@)[j] == bts@[j].model());
                        }
                    }
                    same
                }
                },
                _ => false,
            },
        }
    }
}

/// Deep copy of a token sequence: the copy has the same models.
#[verifier::loop_isolation(false)]
pub fn dup_tokens(ts: &Vec<Token>) -> (r: Vec<Token>)
    ensures
        Token::models(r@) == Token::models(ts@),
{
    let mut out: Vec<Token> = Vec::new();
    let mut i: usize = 0;
    while i < ts.len()
        invariant
            i <= ts.len(),
            out@.len() == i,
            forall|j: int| 0 <= j < i ==> #[trigger] out@[j].model() == ts@[j].model(),
        decreases ts.len() - i,
    {
        let t = ts[i].duplicate();
        out.push(t);
        i = i + 1;
    }
    proof {
        lemma_models_ext(out@, ts@);
    }
    out
}

/// Elementwise model equality of two token sequences gives equality of their
/// models.
pub proof fn lemma_models_ext(a: Seq<Token>, b: Seq<Token>)
    requires
        a.len() == b.len(),
        forall|i: int| 0 <= i < a.len() ==> #[trigger] a[i].model() == b[i].model(),
    ensures
        Token::models(a) == Token::models(b),
{
    lemma_models_index(a);
    lemma_models_index(b);
    assert(Token::models(a) =~= Token::models(b));
}

/// The model of a token sequence has the same length, and each element is the
/// model of the element at the same position.
pub proof fn lemma_models_index(ts: Seq<Token>)
    ensures
        Token::models(ts).len() == ts.len(),
        forall|i: int| 0 <= i < ts.len() ==> #[trigger] Token::models(ts)[i] == ts[i].model(),
    decreases ts,
{
    if ts.len() > 0 {
        lemma_models_index(ts.subrange(1, ts.len() as int));
    }
}

/// Appending token sequences appends their models.
pub proof fn lemma_models_add(a: Seq<Token>, b: Seq<Token>)
    ensures
        Token::models(a + b) == Token::models(a) + Token::models(b),
    decreases a,
{
    if a.len() == 0 {
        assert(a + b =~= b);
        assert(Token::models(a) + Token::models(b) =~= Token::models(b));
    } else {
        lemma_models_add(a.subrange(1, a.len() as int), b);
        assert((a + b).subrange(1, (a + b).len() as int) =~= a.subrange(1, a.len() as int) + b);
        assert(Token::models(a + b) =~= Token::models(a) + Token::models(b));
    }
}

} // verus!

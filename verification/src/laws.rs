//! Laws of the transcriber, stated and proved over the walker's model: the
//! no-op round trip for plain literals, sibling isolation of errors, and
//! exact reproduction of literal-free trees.

use vstd::prelude::*;

use crate::parse::{text_end, text_of, LiteralErrorModel, PartModel};
use crate::token::TokenModel;
use crate::walk::{walk_one, walk_tokens};

verus! {

/// A run of characters without `$` scans to itself, up to the end of the
/// text.
proof fn lemma_plain_text(s: Seq<char>, i: int)
    requires
        0 <= i <= s.len(),
        forall|k: int| 0 <= k < s.len() ==> s[k] != '$',
    ensures
        text_end(s, i) == s.len(),
        text_of(s, i) == s.subrange(i, s.len() as int),
    decreases s.len() - i,
{
    if i >= s.len() {
        assert(s.subrange(i, s.len() as int) =~= Seq::<char>::empty());
    } else {
        lemma_plain_text(s, i + 1);
        assert(seq![s[i]] + s.subrange(i + 1, s.len() as int) =~= s.subrange(i, s.len() as int));
    }
}

/// No-op round trip: a literal whose text holds no `$` is returned
/// unchanged, and contributes no diagnostic.
pub proof fn lemma_no_sigil_round_trip(sid: u64, val: Seq<char>, tpl: Option<Seq<TokenModel>>)
    requires
        forall|k: int| 0 <= k < val.len() ==> val[k] != '$',
    ensures
        walk_one(TokenModel::Str(sid, val), tpl) == (
            seq![TokenModel::Str(sid, val)],
            Seq::<(u64, LiteralErrorModel)>::empty(),
        ),
{
    lemma_plain_text(val, 0);
    assert(val.subrange(0, val.len() as int) =~= val);
    if val.len() == 0 {
        assert(crate::parse::scan(val, 0) == Ok::<Seq<PartModel>, LiteralErrorModel>(
            Seq::<PartModel>::empty(),
        ));
    } else {
        assert(crate::parse::scan(val, 0) == Ok::<Seq<PartModel>, LiteralErrorModel>(
            seq![PartModel::Text(val)],
        ));
    }
}

/// Sibling isolation: transcribing two sibling sequences side by side
/// transcribes each independently — the outputs and the diagnostics are the
/// concatenations, so an error in one sibling never changes what another
/// becomes, and never stops the walk.
pub proof fn lemma_walk_append(a: Seq<TokenModel>, b: Seq<TokenModel>, tpl: Option<Seq<TokenModel>>)
    ensures
        walk_tokens(a + b, tpl).0 == walk_tokens(a, tpl).0 + walk_tokens(b, tpl).0,
        walk_tokens(a + b, tpl).1 == walk_tokens(a, tpl).1 + walk_tokens(b, tpl).1,
    decreases a,
{
    if a.len() == 0 {
        assert(a + b =~= b);
        assert(walk_tokens(a, tpl).0 + walk_tokens(b, tpl).0 =~= walk_tokens(b, tpl).0);
        assert(walk_tokens(a, tpl).1 + walk_tokens(b, tpl).1 =~= walk_tokens(b, tpl).1);
    } else {
        lemma_walk_append(a.subrange(1, a.len() as int), b, tpl);
        assert((a + b).subrange(1, (a + b).len() as int) =~= a.subrange(1, a.len() as int) + b);
        assert(walk_tokens(a + b, tpl).0 =~= walk_tokens(a, tpl).0 + walk_tokens(b, tpl).0);
        assert(walk_tokens(a + b, tpl).1 =~= walk_tokens(a, tpl).1 + walk_tokens(b, tpl).1);
    }
}

/// Whether a token holds no string literal anywhere, at any nesting depth.
pub open spec fn literal_free(t: TokenModel) -> bool
    decreases t,
{
    match t {
        TokenModel::Str(_, _) => false,
        TokenModel::Group(_, inner) => literal_free_seq(inner),
        _ => true,
    }
}

/// Whether a token sequence holds no string literal anywhere.
pub open spec fn literal_free_seq(ts: Seq<TokenModel>) -> bool
    decreases ts,
{
    if ts.len() == 0 {
        true
    } else {
        literal_free(ts[0]) && literal_free_seq(ts.subrange(1, ts.len() as int))
    }
}

/// Nesting preservation, for one token: a token holding no string literal is
/// reproduced exactly — delimiter kinds, nesting and order — with no
/// diagnostics.
pub proof fn lemma_literal_free_one(t: TokenModel, tpl: Option<Seq<TokenModel>>)
    requires
        literal_free(t),
    ensures
        walk_one(t, tpl) == (seq![t], Seq::<(u64, LiteralErrorModel)>::empty()),
    decreases t,
{
    match t {
        TokenModel::Group(d, inner) => {
            lemma_literal_free_identity(inner, tpl);
        },
        _ => {},
    }
}

/// Nesting preservation: a token sequence holding no string literal is
/// reproduced exactly, with no diagnostics.
pub proof fn lemma_literal_free_identity(ts: Seq<TokenModel>, tpl: Option<Seq<TokenModel>>)
    requires
        literal_free_seq(ts),
    ensures
        walk_tokens(ts, tpl) == (ts, Seq::<(u64, LiteralErrorModel)>::empty()),
    decreases ts,
{
    if ts.len() == 0 {
    } else {
        lemma_literal_free_one(ts[0], tpl);
        lemma_literal_free_identity(ts.subrange(1, ts.len() as int), tpl);
        assert(seq![ts[0]] + ts.subrange(1, ts.len() as int) =~= ts);
        assert(walk_tokens(ts, tpl).1 =~= Seq::<(u64, LiteralErrorModel)>::empty());
    }
}

} // verus!

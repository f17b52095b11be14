//! The tree walker / transcriber: a depth-first traversal that dispatches
//! string-literal leaves to the literal scanner, splices replacement
//! expressions in place, rebuilds groups with their original delimiters, and
//! accumulates diagnostics without aborting sibling processing.

use vstd::prelude::*;

use crate::assemble::{args_model, comma_join, concat_call, concat_call_model};
use crate::config::Config;
use crate::parse::{parse_literal, scan, LiteralError, LiteralErrorModel, Part, PartModel};
use crate::subst::{placeholder, subst, substitute_metavars};
use crate::token::{lemma_models_add, lemma_models_index, Token, TokenModel};

verus! {

/// One queued diagnostic: the site handle of the offending literal, and its
/// parse error.
pub struct Diag {
    /// The site handle of the literal the error was found in.
    pub sid: u64,
    /// The parse error itself.
    pub error: LiteralError,
}

impl Diag {
    /// The model of one diagnostic.
    pub open spec fn model(self) -> (u64, LiteralErrorModel) {
        (self.sid, self.error.model())
    }

    /// The model of a diagnostic sequence, elementwise.
    pub open spec fn models(ds: Seq<Diag>) -> Seq<(u64, LiteralErrorModel)>
        decreases ds,
    {
        if ds.len() == 0 {
            Seq::empty()
        } else {
            seq![ds[0].model()] + Diag::models(ds.subrange(1, ds.len() as int))
        }
    }
}

/// The model of a diagnostic sequence has the same length, and each element
/// is the model of the element at the same position.
pub proof fn lemma_dmodels_index(ds: Seq<Diag>)
    ensures
        Diag::models(ds).len() == ds.len(),
        forall|i: int| 0 <= i < ds.len() ==> #[trigger] Diag::models(ds)[i] == ds[i].model(),
    decreases ds,
{
    if ds.len() > 0 {
        lemma_dmodels_index(ds.subrange(1, ds.len() as int));
    }
}

/// Appending diagnostic sequences appends their models.
pub proof fn lemma_dmodels_add(a: Seq<Diag>, b: Seq<Diag>)
    ensures
        Diag::models(a + b) == Diag::models(a) + Diag::models(b),
    decreases a,
{
    if a.len() == 0 {
        assert(a + b =~= b);
        assert(Diag::models(a) + Diag::models(b) =~= Diag::models(b));
    } else {
        lemma_dmodels_add(a.subrange(1, a.len() as int), b);
        assert((a + b).subrange(1, (a + b).len() as int) =~= a.subrange(1, a.len() as int) + b);
        assert(Diag::models(a + b) =~= Diag::models(a) + Diag::models(b));
    }
}

/// The value a kept literal shows: the lone text segment's value when the
/// parse yields exactly one text segment (so `$$` escapes collapse), else the
/// original text unchanged.
pub open spec fn kept_value(val: Seq<char>, parts: Seq<PartModel>) -> Seq<char> {
    if parts.len() == 1 && parts[0] is Text {
        parts[0]->Text_0
    } else {
        val
    }
}

/// The replacement token sequence for a literal with at least two parts:
/// the built-in concatenation call, or the custom template with the
/// placeholder replaced by the comma-joined parts. (The error arm cannot
/// arise for a validated template.)
pub open spec fn replacement_model(
    parts: Seq<PartModel>,
    sid: u64,
    val: Seq<char>,
    tpl: Option<Seq<TokenModel>>,
) -> Seq<TokenModel> {
    match tpl {
        Option::None => concat_call_model(args_model(parts, sid)),
        Option::Some(t) => match subst(t, placeholder(), args_model(parts, sid)) {
            Ok(out) => out,
            Err(_) => seq![TokenModel::Str(sid, val)],
        },
    }
}

/// The transcription of one token: what it becomes, and the diagnostics it
/// contributes.
pub open spec fn walk_one(t: TokenModel, tpl: Option<Seq<TokenModel>>) -> (
    Seq<TokenModel>,
    Seq<(u64, LiteralErrorModel)>,
)
    decreases t,
{
    match t {
        TokenModel::Str(sid, val) => match scan(val, 0) {
            Ok(parts) => if parts.len() <= 1 {
                (seq![TokenModel::Str(sid, kept_value(val, parts))], Seq::empty())
            } else {
                (replacement_model(parts, sid, val, tpl), Seq::empty())
            },
            Err(e) => (seq![t], seq![(sid, e)]),
        },
        TokenModel::Group(d, inner) => {
            let sub = walk_tokens(inner, tpl);
            (seq![TokenModel::Group(d, sub.0)], sub.1)
        },
        _ => (seq![t], Seq::empty()),
    }
}

/// The transcription of a token sequence: each token's transcription spliced
/// in order, and the diagnostics in encounter order.
pub open spec fn walk_tokens(ts: Seq<TokenModel>, tpl: Option<Seq<TokenModel>>) -> (
    Seq<TokenModel>,
    Seq<(u64, LiteralErrorModel)>,
)
    decreases ts,
{
    if ts.len() == 0 {
        (Seq::empty(), Seq::empty())
    } else {
        let h = walk_one(ts[0], tpl);
        let r = walk_tokens(ts.subrange(1, ts.len() as int), tpl);
        (h.0 + r.0, h.1 + r.1)
    }
}

/// Transcribes the token suffix starting at `i`, pushing diagnostics in
/// encounter order.
#[verifier::loop_isolation(false)]
fn transcribe_from(ts: &Vec<Token>, i: usize, cfg: &Config, diags: &mut Vec<Diag>) -> (out: Vec<
    Token,
>)
    requires
        cfg.wf(),
        i <= ts@.len(),
    ensures
        Token::models(out@) == walk_tokens(
            Token::models(ts@).subrange(i as int, ts@.len() as int),
            cfg.template_model(),
        ).0,
        Diag::models(final(diags)@) == Diag::models(old(diags)@) + walk_tokens(
            Token::models(ts@).subrange(i as int, ts@.len() as int),
            cfg.template_model(),
        ).1,
    decreases ts@, ts@.len() - i,
{
    proof {
        lemma_models_index(ts@);
    }
    let ghost m = Token::models(ts@);
    let ghost tpl = cfg.template_model();
    let ghost sub = m.subrange(i as int, m.len() as int);
    let ghost d0 = diags@;
    if i >= ts.len() {
        let out: Vec<Token> = Vec::new();
        proof {
            assert(Token::models(out@) =~= Seq::<TokenModel>::empty());
            assert(Diag::models(diags@) =~= Diag::models(d0) + Seq::<(
                u64,
                LiteralErrorModel,
            )>::empty());
        }
        return out;
    }
    proof {
        assert(sub[0] == ts@[i as int].model());
        assert(sub.subrange(1, sub.len() as int) =~= m.subrange((i + 1) as int, m.len() as int));
    }

    let mut head: Vec<Token> = match &ts[i] {
        Token::Str(sid, val) => {
            match parse_literal(val.as_str()) {
                Ok(parts) => {
                    proof {
                        crate::parse::lemma_pmodels_index(parts@);
                    }
                    if parts.len() <= 1 {
                        // one part or none: the literal stays a plain literal
                        let kept: String = if parts.len() == 1 {
                            match &parts[0] {
                                Part::Text(t) => t.clone(),
                                _ => val.clone(),
                            }
                        } else {
                            val.clone()
                        };
                        let mut v: Vec<Token> = Vec::new();
                        v.push(Token::Str(*sid, kept));
                        proof {
                            lemma_models_index(v@);
                            assert(Token::models(v@) =~= walk_one(sub[0], tpl).0);
                        }
                        v
                    } else {
                        let args = comma_join(&parts, *sid);
                        let ghost argm = Token::models(args@);
                        let v: Vec<Token> = match cfg.template_ref() {
                            Option::Some(t) => {
                                match substitute_metavars(t, &args) {
                                    Ok(outv) => outv,
                                    Err(_) => {
                                        // cannot arise: the template was validated
                                        proof {
                                            assert(subst(
                                                Token::models(t@),
                                                placeholder(),
                                                argm,
                                            ) is Ok);
                                        }
                                        vstd::pervasive::unreached()
                                    },
                                }
                            },
                            Option::None => concat_call(args),
                        };
                        proof {
                            assert(Token::models(v@) =~= walk_one(sub[0], tpl).0);
                        }
                        v
                    }
                },
                Err(e) => {
                    let mut v: Vec<Token> = Vec::new();
                    v.push(Token::Str(*sid, val.clone()));
                    let ghost dpre = diags@;
                    diags.push(Diag { sid: *sid, error: e });
                    proof {
                        lemma_models_index(v@);
                        assert(Token::models(v@) =~= walk_one(sub[0], tpl).0);
                        assert(diags@ =~= dpre + seq![
                            Diag { sid: ts@[i as int]->Str_0, error: e },
                        ]);
                        lemma_dmodels_add(dpre, seq![Diag { sid: ts@[i as int]->Str_0, error: e }]);
                        let dd = Diag { sid: ts@[i as int]->Str_0, error: e };
                        lemma_dmodels_index(seq![dd]);
                        assert(Diag::models(seq![dd]) =~= seq![dd.model()]);
                        assert(Diag::models(seq![dd]) =~= walk_one(sub[0], tpl).1);
                    }
                    v
                },
            }
        },
        Token::Group(d, inner) => {
            proof {
                broadcast use vstd::seq::axiom_seq_index_decreases;

                assert(decreases_to!(ts@ => ts@[i as int]));
                assert(ts@[i as int]->Group_1 == *inner);
                assert(decreases_to!(ts@[i as int] => ts@[i as int]->Group_1));
                assert(decreases_to!(*inner => inner@));
            }
            let ghost dpre = diags@;
            let gout = transcribe_from(inner, 0, cfg, diags);
            let mut v: Vec<Token> = Vec::new();
            v.push(Token::Group(*d, gout));
            proof {
                lemma_models_index(v@);
                lemma_models_index(inner@);
                assert(Token::models(inner@).subrange(0, inner@.len() as int) =~= Token::models(
                    inner@,
                ));
                assert(Token::models(v@) =~= walk_one(sub[0], tpl).0);
            }
            v
        },
        _ => {
            let mut v: Vec<Token> = Vec::new();
            v.push(ts[i].duplicate());
            proof {
                lemma_models_index(v@);
                assert(Token::models(v@) =~= walk_one(sub[0], tpl).0);
            }
            v
        },
    };
    let ghost dmid = diags@;
    proof {
        assert(Diag::models(dmid) == Diag::models(d0) + walk_one(sub[0], tpl).1);
    }
    let ghost ghead = head@;
    let mut rest = transcribe_from(ts, i + 1, cfg, diags);
    let ghost grest = rest@;
    head.append(&mut rest);
    proof {
        lemma_models_add(ghead, grest);
        let w = walk_tokens(sub, tpl);
        let wh = walk_one(sub[0], tpl);
        let wr = walk_tokens(sub.subrange(1, sub.len() as int), tpl);
        assert(Token::models(head@) == wh.0 + wr.0);
        assert(Diag::models(diags@) == (Diag::models(d0) + wh.1) + wr.1);
        assert((Diag::models(d0) + wh.1) + wr.1 =~= Diag::models(d0) + (wh.1 + wr.1));
    }
    head
}

/// Transcribes a whole token sequence: string literals with two or more
/// parts are replaced by their built or substituted expressions, groups are
/// rebuilt with their original delimiters, everything else passes through
/// unchanged; diagnostics accumulate in encounter order and never stop the
/// walk.
pub fn transcribe(ts: &Vec<Token>, cfg: &Config, diags: &mut Vec<Diag>) -> (out: Vec<Token>)
    requires
        cfg.wf(),
    ensures
        Token::models(out@) == walk_tokens(Token::models(ts@), cfg.template_model()).0,
        Diag::models(final(diags)@) == Diag::models(old(diags)@) + walk_tokens(
            Token::models(ts@),
            cfg.template_model(),
        ).1,
{
    let out = transcribe_from(ts, 0, cfg, diags);
    proof {
        lemma_models_index(ts@);
        assert(Token::models(ts@).subrange(0, ts@.len() as int) =~= Token::models(ts@));
    }
    out
}

/// One transcription pass over an item: returns the rewritten tokens and the
/// diagnostics. When any diagnostic was queued, the returned tokens are the
/// original item, unchanged, so a bad literal never prevents the rest of the
/// code from compiling; the caller emits the diagnostics alongside.
pub fn expand(cfg: &Config, item: &Vec<Token>) -> (r: (Vec<Token>, Vec<Diag>))
    requires
        cfg.wf(),
    ensures
        Diag::models(r.1@) == walk_tokens(Token::models(item@), cfg.template_model()).1,
        r.1@.len() == 0 ==> Token::models(r.0@) == walk_tokens(
            Token::models(item@),
            cfg.template_model(),
        ).0,
        r.1@.len() != 0 ==> Token::models(r.0@) == Token::models(item@),
{
    let mut diags: Vec<Diag> = Vec::new();
    let out = transcribe(item, cfg, &mut diags);
    proof {
        assert(Diag::models(Seq::<Diag>::empty()) + walk_tokens(
            Token::models(item@),
            cfg.template_model(),
        ).1 =~= walk_tokens(Token::models(item@), cfg.template_model()).1);
        lemma_dmodels_index(diags@);
    }
    if diags.len() == 0 {
        (out, diags)
    } else {
        (crate::token::dup_tokens(item), diags)
    }
}

} // verus!

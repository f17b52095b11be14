//! The template substitutor: rewrites a user-supplied expression template by
//! replacing each occurrence of the one recognized placeholder (`$` followed
//! by its name) with a replacement token sequence, recursing into nested
//! groups. `$$` collapses to a literal `$`; any other `$name` is an error
//! naming the unknown metavariable. A `$` with nothing after it (at the end
//! of the template or of a group) passes through as a literal `$`: the
//! template grammar is lenient here, where the literal grammar is strict.

use vstd::prelude::*;

use crate::token::{lemma_models_add, lemma_models_index, Token, TokenModel};

verus! {

/// The one placeholder name the substitutor recognizes.
pub open spec fn placeholder() -> Seq<char> {
    "parts_comma_sep"@
}

/// Whether this token is a `$` punctuation character.
pub open spec fn is_dollar_model(t: TokenModel) -> bool {
    t matches TokenModel::Punct('$', _)
}

fn is_dollar(t: &Token) -> (b: bool)
    ensures
        b == is_dollar_model(t.model()),
{
    match t {
        Token::Punct(c, _) => *c == '$',
        _ => false,
    }
}

fn is_placeholder_name(s: &String) -> (b: bool)
    ensures
        b == (s@ == placeholder()),
{
    *s == String::from_str("parts_comma_sep")
}

/// The template `ts` with each `$` + placeholder occurrence replaced by
/// `repl`, recursing into groups; or the name of the first unknown
/// metavariable, in scan order.
pub open spec fn subst(ts: Seq<TokenModel>, name: Seq<char>, repl: Seq<TokenModel>) -> Result<
    Seq<TokenModel>,
    Seq<char>,
>
    decreases ts,
{
    if ts.len() == 0 {
        Ok(Seq::empty())
    } else if is_dollar_model(ts[0]) && ts.len() >= 2 {
        match ts[1] {
            TokenModel::Ident(id) => if id == name {
                match subst(ts.subrange(2, ts.len() as int), name, repl) {
                    Ok(rest) => Ok(repl + rest),
                    Err(e) => Err(e),
                }
            } else {
                Err(id)
            },
            TokenModel::Punct(c1, _) => if c1 == '$' {
                // `$$` collapses: keep only the first `$`
                match subst(ts.subrange(2, ts.len() as int), name, repl) {
                    Ok(rest) => Ok(seq![ts[0]] + rest),
                    Err(e) => Err(e),
                }
            } else {
                match subst(ts.subrange(2, ts.len() as int), name, repl) {
                    Ok(rest) => Ok(seq![ts[0], ts[1]] + rest),
                    Err(e) => Err(e),
                }
            },
            TokenModel::Group(d, inner) => match subst(inner, name, repl) {
                Ok(sub_inner) => match subst(ts.subrange(2, ts.len() as int), name, repl) {
                    Ok(rest) => Ok(seq![ts[0], TokenModel::Group(d, sub_inner)] + rest),
                    Err(e) => Err(e),
                },
                Err(e) => Err(e),
            },
            _ => match subst(ts.subrange(2, ts.len() as int), name, repl) {
                Ok(rest) => Ok(seq![ts[0], ts[1]] + rest),
                Err(e) => Err(e),
            },
        }
    } else {
        match ts[0] {
            TokenModel::Group(d, inner) => match subst(inner, name, repl) {
                Ok(sub_inner) => match subst(ts.subrange(1, ts.len() as int), name, repl) {
                    Ok(rest) => Ok(seq![TokenModel::Group(d, sub_inner)] + rest),
                    Err(e) => Err(e),
                },
                Err(e) => Err(e),
            },
            _ => match subst(ts.subrange(1, ts.len() as int), name, repl) {
                Ok(rest) => Ok(seq![ts[0]] + rest),
                Err(e) => Err(e),
            },
        }
    }
}

/// Whether the substitution errs, and on which name, depends on the template
/// alone, never on the replacement.
pub proof fn lemma_subst_err_same(
    ts: Seq<TokenModel>,
    name: Seq<char>,
    r1: Seq<TokenModel>,
    r2: Seq<TokenModel>,
)
    ensures
        subst(ts, name, r1) is Err <==> subst(ts, name, r2) is Err,
        subst(ts, name, r1) matches Err(e) ==> subst(ts, name, r2) == Err::<
            Seq<TokenModel>,
            Seq<char>,
        >(e),
    decreases ts,
{
    if ts.len() == 0 {
    } else if is_dollar_model(ts[0]) && ts.len() >= 2 {
        match ts[1] {
            TokenModel::Ident(id) => {
                if id == name {
                    lemma_subst_err_same(ts.subrange(2, ts.len() as int), name, r1, r2);
                }
            },
            TokenModel::Punct(c1, _) => {
                lemma_subst_err_same(ts.subrange(2, ts.len() as int), name, r1, r2);
            },
            TokenModel::Group(d, inner) => {
                lemma_subst_err_same(inner, name, r1, r2);
                lemma_subst_err_same(ts.subrange(2, ts.len() as int), name, r1, r2);
            },
            _ => {
                lemma_subst_err_same(ts.subrange(2, ts.len() as int), name, r1, r2);
            },
        }
    } else {
        match ts[0] {
            TokenModel::Group(d, inner) => {
                lemma_subst_err_same(inner, name, r1, r2);
                lemma_subst_err_same(ts.subrange(1, ts.len() as int), name, r1, r2);
            },
            _ => {
                lemma_subst_err_same(ts.subrange(1, ts.len() as int), name, r1, r2);
            },
        }
    }
}

/// Substitutes the replacement for each placeholder occurrence in the
/// template suffix starting at `i`.
#[verifier::loop_isolation(false)]
fn subst_from(ts: &Vec<Token>, i: usize, repl: &Vec<Token>) -> (r: Result<Vec<Token>, String>)
    requires
        i <= ts@.len(),
    ensures
        match r {
            Ok(out) => subst(
                Token::models(ts@).subrange(i as int, ts@.len() as int),
                placeholder(),
                Token::models(repl@),
            ) == Ok::<Seq<TokenModel>, Seq<char>>(Token::models(out@)),
            Err(bad) => subst(
                Token::models(ts@).subrange(i as int, ts@.len() as int),
                placeholder(),
                Token::models(repl@),
            ) == Err::<Seq<TokenModel>, Seq<char>>(bad@),
        },
    decreases ts@, ts@.len() - i,
{
    proof {
        lemma_models_index(ts@);
    }
    let ghost m = Token::models(ts@);
    let ghost rm = Token::models(repl@);
    let ghost sub = m.subrange(i as int, m.len() as int);
    if i >= ts.len() {
        let out: Vec<Token> = Vec::new();
        proof {
            assert(Token::models(out@) =~= Seq::<TokenModel>::empty());
        }
        return Ok(out);
    }
    proof {
        assert(sub[0] == ts@[i as int].model());
        if i + 1 < ts@.len() {
            assert(sub[1] == ts@[i + 1].model());
        }
    }
    if is_dollar(&ts[i]) && i + 1 < ts.len() {
        proof {
            assert(sub.subrange(2, sub.len() as int) =~= m.subrange(
                (i + 2) as int,
                m.len() as int,
            ));
        }
        match &ts[i + 1] {
            Token::Ident(id) => {
                if is_placeholder_name(id) {
                    let rest = match subst_from(ts, i + 2, repl) {
                        Ok(v) => v,
                        Err(e) => {
                            return Err(e);
                        },
                    };
                    let ghost grest = rest@;
                    let mut out = crate::token::dup_tokens(repl);
                    let ghost ghead = out@;
                    let mut tail = rest;
                    out.append(&mut tail);
                    proof {
                        lemma_models_add(ghead, grest);
                    }
                    Ok(out)
                } else {
                    Err(id.clone())
                }
            },
            Token::Punct(c1, _) => {
                let second_dollar = *c1 == '$';
                let rest = match subst_from(ts, i + 2, repl) {
                    Ok(v) => v,
                    Err(e) => {
                        return Err(e);
                    },
                };
                let ghost grest = rest@;
                let mut out: Vec<Token> = Vec::new();
                out.push(ts[i].duplicate());
                if !second_dollar {
                    out.push(ts[i + 1].duplicate());
                }
                let ghost ghead = out@;
                let mut tail = rest;
                out.append(&mut tail);
                proof {
                    lemma_models_add(ghead, grest);
                    lemma_models_index(ghead);
                    if second_dollar {
                        assert(Token::models(ghead) =~= seq![sub[0]]);
                    } else {
                        assert(Token::models(ghead) =~= seq![sub[0], sub[1]]);
                    }
                }
                Ok(out)
            },
            Token::Group(d, inner) => {
                proof {
                    broadcast use vstd::seq::axiom_seq_index_decreases;

                    assert(decreases_to!(ts@ => ts@[i + 1]));
                    assert(ts@[i + 1]->Group_1 == *inner);
                    assert(decreases_to!(ts@[i + 1] => ts@[i + 1]->Group_1));
                    assert(decreases_to!(*inner => inner@));
                }
                let sub_inner = match subst_from(inner, 0, repl) {
                    Ok(v) => v,
                    Err(e) => {
                        proof {
                            lemma_models_index(inner@);
                            assert(Token::models(inner@).subrange(0, inner@.len() as int)
                                =~= Token::models(inner@));
                        }
                        return Err(e);
                    },
                };
                proof {
                    lemma_models_index(inner@);
                    assert(Token::models(inner@).subrange(0, inner@.len() as int) =~= Token::models(
                        inner@,
                    ));
                }
                let rest = match subst_from(ts, i + 2, repl) {
                    Ok(v) => v,
                    Err(e) => {
                        return Err(e);
                    },
                };
                let ghost grest = rest@;
                let ghost ginner = sub_inner@;
                let mut out: Vec<Token> = Vec::new();
                out.push(ts[i].duplicate());
                out.push(Token::Group(*d, sub_inner));
                let ghost ghead = out@;
                let mut tail = rest;
                out.append(&mut tail);
                proof {
                    lemma_models_add(ghead, grest);
                    lemma_models_index(ghead);
                    assert(Token::models(ghead) =~= seq![
                        sub[0],
                        TokenModel::Group(*d, Token::models(ginner)),
                    ]);
                }
                Ok(out)
            },
            _ => {
                let rest = match subst_from(ts, i + 2, repl) {
                    Ok(v) => v,
                    Err(e) => {
                        return Err(e);
                    },
                };
                let ghost grest = rest@;
                let mut out: Vec<Token> = Vec::new();
                out.push(ts[i].duplicate());
                out.push(ts[i + 1].duplicate());
                let ghost ghead = out@;
                let mut tail = rest;
                out.append(&mut tail);
                proof {
                    lemma_models_add(ghead, grest);
                    lemma_models_index(ghead);
                    assert(Token::models(ghead) =~= seq![sub[0], sub[1]]);
                }
                Ok(out)
            },
        }
    } else {
        proof {
            assert(sub.subrange(1, sub.len() as int) =~= m.subrange(
                (i + 1) as int,
                m.len() as int,
            ));
        }
        match &ts[i] {
            Token::Group(d, inner) => {
                proof {
                    broadcast use vstd::seq::axiom_seq_index_decreases;

                    assert(decreases_to!(ts@ => ts@[i as int]));
                    assert(ts@[i as int]->Group_1 == *inner);
                    assert(decreases_to!(ts@[i as int] => ts@[i as int]->Group_1));
                    assert(decreases_to!(*inner => inner@));
                }
                let sub_inner = match subst_from(inner, 0, repl) {
                    Ok(v) => v,
                    Err(e) => {
                        proof {
                            lemma_models_index(inner@);
                            assert(Token::models(inner@).subrange(0, inner@.len() as int)
                                =~= Token::models(inner@));
                        }
                        return Err(e);
                    },
                };
                proof {
                    lemma_models_index(inner@);
                    assert(Token::models(inner@).subrange(0, inner@.len() as int) =~= Token::models(
                        inner@,
                    ));
                }
                let rest = match subst_from(ts, i + 1, repl) {
                    Ok(v) => v,
                    Err(e) => {
                        return Err(e);
                    },
                };
                let ghost grest = rest@;
                let ghost ginner = sub_inner@;
                let mut out: Vec<Token> = Vec::new();
                out.push(Token::Group(*d, sub_inner));
                let ghost ghead = out@;
                let mut tail = rest;
                out.append(&mut tail);
                proof {
                    lemma_models_add(ghead, grest);
                    lemma_models_index(ghead);
                    assert(Token::models(ghead) =~= seq![
                        TokenModel::Group(*d, Token::models(ginner)),
                    ]);
                }
                Ok(out)
            },
            _ => {
                let rest = match subst_from(ts, i + 1, repl) {
                    Ok(v) => v,
                    Err(e) => {
                        return Err(e);
                    },
                };
                let ghost grest = rest@;
                let mut out: Vec<Token> = Vec::new();
                out.push(ts[i].duplicate());
                let ghost ghead = out@;
                let mut tail = rest;
                out.append(&mut tail);
                proof {
                    lemma_models_add(ghead, grest);
                    lemma_models_index(ghead);
                    assert(Token::models(ghead) =~= seq![sub[0]]);
                }
                Ok(out)
            },
        }
    }
}

/// Substitutes the replacement for each placeholder occurrence in the whole
/// template.
pub fn substitute_metavars(template: &Vec<Token>, repl: &Vec<Token>) -> (r: Result<
    Vec<Token>,
    String,
>)
    ensures
        match r {
            Ok(out) => subst(Token::models(template@), placeholder(), Token::models(repl@))
                == Ok::<Seq<TokenModel>, Seq<char>>(Token::models(out@)),
            Err(bad) => subst(Token::models(template@), placeholder(), Token::models(repl@))
                == Err::<Seq<TokenModel>, Seq<char>>(bad@),
        },
{
    let r = subst_from(template, 0, repl);
    proof {
        lemma_models_index(template@);
        assert(Token::models(template@).subrange(0, template@.len() as int) =~= Token::models(
            template@,
        ));
    }
    r
}

} // verus!

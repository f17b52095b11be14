//! The per-invocation configuration: an optional expression template, parsed
//! once and validated up front, before any literal is visited.

use vstd::prelude::*;

use crate::subst::{lemma_subst_err_same, placeholder, subst, substitute_metavars};
use crate::token::{Token, TokenModel};

verus! {

/// A rejected template: it contains a metavariable other than the one
/// recognized placeholder.
pub struct TemplateError {
    /// The unknown metavariable's name.
    pub name: String,
}

impl TemplateError {
    /// The diagnostic text of the error.
    pub open spec fn message_text(self) -> Seq<char> {
        "unknown metavariable in `concat` parameter value: `$"@ + self.name@ + "`"@
    }

    /// Renders the diagnostic text of this error.
    pub fn message(&self) -> (r: String)
        ensures
            r@ == self.message_text(),
    {
        let mut m = String::from_str("unknown metavariable in `concat` parameter value: `$");
        m.append(self.name.as_str());
        m.append("`");
        m
    }
}

/// The configuration of one invocation: an optional custom template. A value
/// of this type only exists for a template that the substitutor accepts, so
/// substitution can never fail once the walk has begun.
pub struct Config {
    /// The optional custom template's tokens.
    pub template: Option<Vec<Token>>,
}

impl Config {
    /// The model of the optional template.
    pub open spec fn template_model(self) -> Option<Seq<TokenModel>> {
        match self.template {
            Option::Some(t) => Option::Some(Token::models(t@)),
            Option::None => Option::None,
        }
    }

    /// A well-formed configuration: if a template is present, substituting
    /// any replacement into it succeeds.
    pub open spec fn wf(self) -> bool {
        self.template_model() matches Option::Some(t) ==> forall|repl: Seq<TokenModel>|
            #[trigger] subst(t, placeholder(), repl) is Ok
    }

    /// The optional template held by this configuration.
    pub fn template_ref(&self) -> (r: &Option<Vec<Token>>)
        ensures
            match r {
                Option::Some(t) => self.template_model() == Option::Some(Token::models(t@)),
                Option::None => self.template_model() is None,
            },
    {
        &self.template
    }

    /// Builds the configuration, validating the template up front: a
    /// template holding an unknown metavariable is rejected here, before any
    /// literal of the item is visited.
    pub fn new(template: Option<Vec<Token>>) -> (r: Result<Config, TemplateError>)
        ensures
            match r {
                Ok(c) => c.wf() && match template {
                    Option::Some(t) => c.template_model() == Option::Some(Token::models(t@))
                        && subst(Token::models(t@), placeholder(), Seq::empty()) is Ok,
                    Option::None => c.template_model() is None,
                },
                Err(e) => match template {
                    Option::Some(t) => subst(Token::models(t@), placeholder(), Seq::empty())
                        == Err::<Seq<TokenModel>, Seq<char>>(e.name@),
                    Option::None => false,
                },
            },
    {
        match template {
            Option::None => Ok(Config { template: Option::None }),
            Option::Some(t) => {
                let empty: Vec<Token> = Vec::new();
                let probe = substitute_metavars(&t, &empty);
                let ghost tm = Token::models(t@);
                proof {
                    assert(Token::models(empty@) =~= Seq::<TokenModel>::empty());
                }
                match probe {
                    Ok(_) => {
                        proof {
                            assert forall|repl: Seq<TokenModel>| #[trigger] subst(
                                tm,
                                placeholder(),
                                repl,
                            ) is Ok by {
                                lemma_subst_err_same(tm, placeholder(), Seq::empty(), repl);
                            }
                        }
                        Ok(Config { template: Option::Some(t) })
                    },
                    Err(bad) => Err(TemplateError { name: bad }),
                }
            },
        }
    }
}

} // verus!

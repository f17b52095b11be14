//! The expression assembler: renders ordered parts as a comma-separated
//! argument sequence, and wraps it in the fixed concatenation primitive
//! `::core::concat!( ... )`.

use vstd::prelude::*;

use crate::parse::{Part, PartModel};
use crate::token::{lemma_models_add, lemma_models_index, Delim, Token, TokenModel};

verus! {

/// The token sequence one part contributes: a text segment becomes a string
/// literal carrying the originating literal's site handle, an expression
/// segment contributes its tokens verbatim.
pub open spec fn arg_of(p: PartModel, sid: u64) -> Seq<TokenModel> {
    match p {
        PartModel::Text(t) => seq![TokenModel::Str(sid, t)],
        PartModel::Expr(ts) => ts,
    }
}

/// The comma-separated argument sequence of the given parts, in order.
pub open spec fn args_model(ps: Seq<PartModel>, sid: u64) -> Seq<TokenModel>
    decreases ps,
{
    if ps.len() == 0 {
        Seq::empty()
    } else if ps.len() == 1 {
        arg_of(ps[0], sid)
    } else {
        arg_of(ps[0], sid) + seq![TokenModel::Punct(',', false)] + args_model(
            ps.subrange(1, ps.len() as int),
            sid,
        )
    }
}

/// The token sequence `::core::concat!( args )`.
pub open spec fn concat_call_model(args: Seq<TokenModel>) -> Seq<TokenModel> {
    seq![
        TokenModel::Punct(':', true),
        TokenModel::Punct(':', false),
        TokenModel::Ident("core"@),
        TokenModel::Punct(':', true),
        TokenModel::Punct(':', false),
        TokenModel::Ident("concat"@),
        TokenModel::Punct('!', false),
        TokenModel::Group(Delim::Paren, args),
    ]
}

/// Renders the parts from position `i` on as comma-separated arguments.
#[verifier::loop_isolation(false)]
fn comma_join_from(parts: &Vec<Part>, i: usize, sid: u64) -> (r: Vec<Token>)
    requires
        i <= parts@.len(),
    ensures
        Token::models(r@) == args_model(
            Part::models(parts@).subrange(i as int, parts@.len() as int),
            sid,
        ),
    decreases parts@.len() - i,
{
    proof {
        crate::parse::lemma_pmodels_index(parts@);
    }
    let ghost pm = Part::models(parts@);
    let ghost sub = pm.subrange(i as int, parts@.len() as int);
    if i >= parts.len() {
        let r: Vec<Token> = Vec::new();
        proof {
            assert(Token::models(r@) =~= args_model(sub, sid));
        }
        return r;
    }
    let mut out: Vec<Token> = match &parts[i] {
        Part::Text(t) => {
            let mut v: Vec<Token> = Vec::new();
            v.push(Token::Str(sid, t.clone()));
            proof {
                lemma_models_index(v@);
                assert(Token::models(v@) =~= arg_of(sub[0], sid));
            }
            v
        },
        Part::Expr(ts) => {
            let v = crate::token::dup_tokens(ts);
            proof {
                assert(Token::models(v@) =~= arg_of(sub[0], sid));
            }
            v
        },
    };
    if i + 1 < parts.len() {
        let ghost head = out@;
        out.push(Token::Punct(',', false));
        let mut rest = comma_join_from(parts, i + 1, sid);
        let ghost grest = rest@;
        out.append(&mut rest);
        proof {
            lemma_models_add(head.push(Token::Punct(',', false)), grest);
            lemma_models_index(head.push(Token::Punct(',', false)));
            lemma_models_index(head);
            assert(Token::models(head.push(Token::Punct(',', false))) =~= Token::models(head)
                + seq![TokenModel::Punct(',', false)]);
            assert(sub.subrange(1, sub.len() as int) =~= pm.subrange(
                (i + 1) as int,
                parts@.len() as int,
            ));
            assert(Token::models(out@) =~= args_model(sub, sid));
        }
    } else {
        proof {
            assert(sub.len() == 1);
        }
    }
    out
}

/// Renders the ordered parts as a comma-separated argument sequence; new
/// string literals carry the site handle `sid` of the literal they came from.
pub fn comma_join(parts: &Vec<Part>, sid: u64) -> (r: Vec<Token>)
    ensures
        Token::models(r@) == args_model(Part::models(parts@), sid),
{
    let r = comma_join_from(parts, 0, sid);
    proof {
        crate::parse::lemma_pmodels_index(parts@);
        assert(Part::models(parts@).subrange(0, parts@.len() as int) =~= Part::models(parts@));
    }
    r
}

/// Wraps the argument tokens in the fixed concatenation primitive, yielding
/// `::core::concat!( args )`.
pub fn concat_call(args: Vec<Token>) -> (r: Vec<Token>)
    ensures
        Token::models(r@) == concat_call_model(Token::models(args@)),
{
    let ghost am = Token::models(args@);
    let mut r: Vec<Token> = Vec::new();
    r.push(Token::Punct(':', true));
    r.push(Token::Punct(':', false));
    r.push(Token::Ident(String::from_str("core")));
    r.push(Token::Punct(':', true));
    r.push(Token::Punct(':', false));
    r.push(Token::Ident(String::from_str("concat")));
    r.push(Token::Punct('!', false));
    r.push(Token::Group(Delim::Paren, args));
    proof {
        lemma_models_index(r@);
        assert(Token::models(r@) =~= concat_call_model(am));
    }
    r
}

} // verus!

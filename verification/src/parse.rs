//! The literal scanner: parses one string literal's decoded text according to
//! the interpolation grammar into an ordered list of parts, or reports the
//! first error found.
//!
//! Grammar, left to right: a run of plain characters (with `$$` collapsing to
//! a literal `$`) forms a text segment; `${expr}` splices the re-tokenized
//! expression; `$name` references an identifier; a `&` directly after the `$`
//! wraps either form in a stringify call; anything else after a `$` is an
//! error.

use vstd::prelude::*;

use crate::host::{accepted_ident, lexes};
use crate::token::{Delim, Token, TokenModel};

verus! {

/// One parsed segment of a literal: plain text, or an embedded token
/// sequence.
pub enum Part {
    Text(String),
    Expr(Vec<Token>),
}

/// The model of a part.
pub enum PartModel {
    Text(Seq<char>),
    Expr(Seq<TokenModel>),
}

impl Part {
    /// The model of one part.
    pub open spec fn model(self) -> PartModel {
        match self {
            Part::Text(s) => PartModel::Text(s@),
            Part::Expr(ts) => PartModel::Expr(Token::models(ts@)),
        }
    }

    /// The model of a part sequence, elementwise.
    pub open spec fn models(ps: Seq<Part>) -> Seq<PartModel>
        decreases ps,
    {
        if ps.len() == 0 {
            Seq::empty()
        } else {
            seq![ps[0].model()] + Part::models(ps.subrange(1, ps.len() as int))
        }
    }
}

/// The model of a part sequence has the same length, and each element is the
/// model of the element at the same position.
pub proof fn lemma_pmodels_index(ps: Seq<Part>)
    ensures
        Part::models(ps).len() == ps.len(),
        forall|i: int| 0 <= i < ps.len() ==> #[trigger] Part::models(ps)[i] == ps[i].model(),
    decreases ps,
{
    if ps.len() > 0 {
        lemma_pmodels_index(ps.subrange(1, ps.len() as int));
    }
}

/// Prepending one part prepends its model.
pub proof fn lemma_pmodels_prepend(p: Part, ps: Seq<Part>)
    ensures
        Part::models(ps.insert(0, p)) == seq![p.model()] + Part::models(ps),
{
    let whole = ps.insert(0, p);
    assert(whole.len() == ps.len() + 1);
    assert(whole[0] == p);
    assert(whole.subrange(1, whole.len() as int) =~= ps);
}

/// A parse error, the first found in one literal. `BadChar`'s flag tells
/// whether a `&` stood after the `$`. `BadExpr` carries the embedded
/// expression's source and the tokenizer's own diagnostic text.
pub enum LiteralError {
    /// `$` at the very end of the text.
    DanglingSigil,
    /// `${` with no closing `}` before the end of the text.
    Unclosed,
    /// The character after `$` (or after `$&`), or the end of the text there,
    /// opens no interpolation form.
    BadChar(bool),
    /// An identifier-shaped name that the tokenizer refuses.
    BadIdent(String),
    /// `${expr}` whose expression does not re-tokenize.
    BadExpr(String, String),
}

/// The model of a parse error. The tokenizer's diagnostic text in `BadExpr`
/// is not modelled: nothing is promised of its content.
pub enum LiteralErrorModel {
    DanglingSigil,
    Unclosed,
    BadChar(bool),
    BadIdent(Seq<char>),
    BadExpr(Seq<char>),
}

impl LiteralError {
    /// The model of an error.
    pub open spec fn model(self) -> LiteralErrorModel {
        match self {
            LiteralError::DanglingSigil => LiteralErrorModel::DanglingSigil,
            LiteralError::Unclosed => LiteralErrorModel::Unclosed,
            LiteralError::BadChar(amp) => LiteralErrorModel::BadChar(amp),
            LiteralError::BadIdent(name) => LiteralErrorModel::BadIdent(name@),
            LiteralError::BadExpr(expr, _) => LiteralErrorModel::BadExpr(expr@),
        }
    }

    /// The diagnostic text of an error.
    pub open spec fn message_text(self) -> Seq<char> {
        match self {
            LiteralError::DanglingSigil => "`$` must be followed by something"@,
            LiteralError::Unclosed => "unclosed `${ ... }`"@,
            LiteralError::BadChar(amp) => if amp {
                "`$&` must be followed by `{ ... }` or a valid identifier"@
            } else {
                "`$` must be followed by `&`, `{ ... }`, or a valid identifier"@
            },
            LiteralError::BadIdent(name) => "invalid metavariable name: `"@ + name@ + "`"@,
            LiteralError::BadExpr(expr, detail) => "could not tokenize `"@ + expr@ + "`: "@
                + detail@,
        }
    }

    /// Renders the diagnostic text of this error.
    pub fn message(&self) -> (r: String)
        ensures
            r@ == self.message_text(),
    {
        match self {
            LiteralError::DanglingSigil => String::from_str("`$` must be followed by something"),
            LiteralError::Unclosed => String::from_str("unclosed `${ ... }`"),
            LiteralError::BadChar(amp) => if *amp {
                String::from_str("`$&` must be followed by `{ ... }` or a valid identifier")
            } else {
                String::from_str("`$` must be followed by `&`, `{ ... }`, or a valid identifier")
            },
            LiteralError::BadIdent(name) => {
                let mut m = String::from_str("invalid metavariable name: `");
                m.append(name.as_str());
                m.append("`");
                m
            },
            LiteralError::BadExpr(expr, detail) => {
                let mut m = String::from_str("could not tokenize `");
                m.append(expr.as_str());
                m.append("`: ");
                m.append(detail.as_str());
                m
            },
        }
    }
}

/// The ASCII characters that may start an interpolated identifier.
pub open spec fn is_ident_start(c: char) -> bool {
    ('a' <= c && c <= 'z') || ('A' <= c && c <= 'Z') || c == '_'
}

/// The ASCII characters that may continue an interpolated identifier.
pub open spec fn is_ident_continue(c: char) -> bool {
    is_ident_start(c) || ('0' <= c && c <= '9')
}

fn ident_start_ch(c: char) -> (r: bool)
    ensures
        r == is_ident_start(c),
{
    ('a' <= c && c <= 'z') || ('A' <= c && c <= 'Z') || c == '_'
}

fn ident_continue_ch(c: char) -> (r: bool)
    ensures
        r == is_ident_continue(c),
{
    ident_start_ch(c) || ('0' <= c && c <= '9')
}

/// Where the maximal text run starting at `i` ends: the first position with a
/// `$` that does not begin a `$$` escape, or the end of the text.
pub open spec fn text_end(s: Seq<char>, i: int) -> int
    decreases s.len() - i,
    when 0 <= i <= s.len()
{
    if i >= s.len() {
        i
    } else if s[i] != '$' {
        text_end(s, i + 1)
    } else if i + 1 < s.len() && s[i + 1] == '$' {
        text_end(s, i + 2)
    } else {
        i
    }
}

/// The text of the maximal run starting at `i`, with each `$$` escape
/// collapsed to one `$`.
pub open spec fn text_of(s: Seq<char>, i: int) -> Seq<char>
    decreases s.len() - i,
    when 0 <= i <= s.len()
{
    if i >= s.len() {
        Seq::empty()
    } else if s[i] != '$' {
        seq![s[i]] + text_of(s, i + 1)
    } else if i + 1 < s.len() && s[i + 1] == '$' {
        seq!['$'] + text_of(s, i + 2)
    } else {
        Seq::empty()
    }
}

/// A text run ends no earlier than it starts and no later than the text.
pub proof fn lemma_text_end_bounds(s: Seq<char>, i: int)
    requires
        0 <= i <= s.len(),
    ensures
        i <= text_end(s, i) <= s.len(),
    decreases s.len() - i,
{
    if i < s.len() {
        if s[i] != '$' {
            lemma_text_end_bounds(s, i + 1);
        } else if i + 1 < s.len() && s[i + 1] == '$' {
            lemma_text_end_bounds(s, i + 2);
        }
    }
}

/// Where the identifier run starting at `i` ends.
pub open spec fn ident_end(s: Seq<char>, i: int) -> int
    decreases s.len() - i,
    when 0 <= i <= s.len()
{
    if i < s.len() && is_ident_continue(s[i]) {
        ident_end(s, i + 1)
    } else {
        i
    }
}

/// An identifier run ends no earlier than it starts and no later than the
/// text.
pub proof fn lemma_ident_end_bounds(s: Seq<char>, i: int)
    requires
        0 <= i <= s.len(),
    ensures
        i <= ident_end(s, i) <= s.len(),
    decreases s.len() - i,
{
    if i < s.len() && is_ident_continue(s[i]) {
        lemma_ident_end_bounds(s, i + 1);
    }
}

/// The position of the first `}` at or after `i`, or -1 when there is none.
pub open spec fn close_index(s: Seq<char>, i: int) -> int
    decreases s.len() - i,
    when 0 <= i <= s.len()
{
    if i >= s.len() {
        -1
    } else if s[i] == '}' {
        i
    } else {
        close_index(s, i + 1)
    }
}

/// A found closing brace lies between `i` and the end of the text.
pub proof fn lemma_close_index_bounds(s: Seq<char>, i: int)
    requires
        0 <= i <= s.len(),
    ensures
        close_index(s, i) == -1 || i <= close_index(s, i) < s.len(),
    decreases s.len() - i,
{
    if i < s.len() && s[i] != '}' {
        lemma_close_index_bounds(s, i + 1);
    }
}

/// The token sequence that splices a re-tokenized expression verbatim.
pub open spec fn splice_model(src: Seq<char>) -> Seq<TokenModel> {
    seq![TokenModel::Verbatim(src)]
}

/// The token sequence that references an interpolated identifier directly:
/// `$name`.
pub open spec fn var_model(name: Seq<char>) -> Seq<TokenModel> {
    seq![TokenModel::Punct('$', false), TokenModel::Ident(name)]
}

/// The token sequence `::core::stringify!( inner )`.
pub open spec fn stringify_model(inner: Seq<TokenModel>) -> Seq<TokenModel> {
    seq![
        TokenModel::Punct(':', true),
        TokenModel::Punct(':', false),
        TokenModel::Ident("core"@),
        TokenModel::Punct(':', true),
        TokenModel::Punct(':', false),
        TokenModel::Ident("stringify"@),
        TokenModel::Punct('!', false),
        TokenModel::Group(Delim::Paren, inner),
    ]
}

/// The parse of the literal text `s` from position `i` on: the ordered parts,
/// or the first error. Text runs are maximal and empty text runs yield no
/// part.
pub open spec fn scan(s: Seq<char>, i: int) -> Result<Seq<PartModel>, LiteralErrorModel>
    decreases s.len() - i,
    when 0 <= i <= s.len()
    via scan_dec
{
    let j = text_end(s, i);
    let t = text_of(s, i);
    let lead: Seq<PartModel> = if t.len() == 0 {
        Seq::empty()
    } else {
        seq![PartModel::Text(t)]
    };
    if j >= s.len() {
        Ok(lead)
    } else if j + 1 >= s.len() {
        Err(LiteralErrorModel::DanglingSigil)
    } else {
        let amp = s[j + 1] == '&';
        let k = if amp {
            j + 2
        } else {
            j + 1
        };
        if k >= s.len() {
            Err(LiteralErrorModel::BadChar(amp))
        } else if s[k] == '{' {
            let m = close_index(s, k + 1);
            if m < 0 {
                Err(LiteralErrorModel::Unclosed)
            } else {
                let expr = s.subrange(k + 1, m);
                if !lexes(expr) {
                    Err(LiteralErrorModel::BadExpr(expr))
                } else {
                    let part = PartModel::Expr(
                        if amp {
                            stringify_model(splice_model(expr))
                        } else {
                            splice_model(expr)
                        },
                    );
                    match scan(s, m + 1) {
                        Ok(rest) => Ok(lead + seq![part] + rest),
                        Err(e) => Err(e),
                    }
                }
            }
        } else if is_ident_start(s[k]) {
            let e = ident_end(s, k);
            let name = s.subrange(k, e);
            if !accepted_ident(name) {
                Err(LiteralErrorModel::BadIdent(name))
            } else {
                let part = PartModel::Expr(
                    if amp {
                        stringify_model(var_model(name))
                    } else {
                        var_model(name)
                    },
                );
                match scan(s, e) {
                    Ok(rest) => Ok(lead + seq![part] + rest),
                    Err(e2) => Err(e2),
                }
            }
        } else {
            Err(LiteralErrorModel::BadChar(amp))
        }
    }
}

/// Builds the token sequence `::core::stringify!( inner )`.
fn stringify_call(inner: Vec<Token>) -> (r: Vec<Token>)
    ensures
        Token::models(r@) == stringify_model(Token::models(inner@)),
{
    let ghost im = Token::models(inner@);
    let mut r: Vec<Token> = Vec::new();
    r.push(Token::Punct(':', true));
    r.push(Token::Punct(':', false));
    r.push(Token::Ident(String::from_str("core")));
    r.push(Token::Punct(':', true));
    r.push(Token::Punct(':', false));
    r.push(Token::Ident(String::from_str("stringify")));
    r.push(Token::Punct('!', false));
    r.push(Token::Group(Delim::Paren, inner));
    proof {
        crate::token::lemma_models_index(r@);
        assert(Token::models(r@) =~= stringify_model(im));
    }
    r
}

/// Scans the literal text from position `i` on, per the interpolation
/// grammar.
#[verifier::loop_isolation(false)]
fn scan_from(s: &str, i: usize) -> (r: Result<Vec<Part>, LiteralError>)
    requires
        i as int <= s@.len(),
    ensures
        match r {
            Ok(ps) => scan(s@, i as int) == Ok::<Seq<PartModel>, LiteralErrorModel>(
                Part::models(ps@),
            ),
            Err(e) => scan(s@, i as int) == Err::<Seq<PartModel>, LiteralErrorModel>(e.model()),
        },
    decreases s@.len() - i,
{
    let ghost gs = s@;
    let ghost gi = i as int;
    let n = s.unicode_len();

    // The maximal text run from `i`, with `$$` collapsed to `$`.
    let mut j = i;
    let mut text = String::new();
    while j < n && (s.get_char(j) != '$' || (j + 1 < n && s.get_char(j + 1) == '$'))
        invariant
            i <= j <= n,
            text@ + text_of(gs, j as int) == text_of(gs, gi),
            text_end(gs, j as int) == text_end(gs, gi),
        decreases n - j,
    {
        let c = s.get_char(j);
        let ghost old_text = text@;
        if c != '$' {
            crate::host::push_char(&mut text, c);
            j = j + 1;
            proof {
                assert(text@ + text_of(gs, j as int) =~= old_text + text_of(gs, j - 1));
            }
        } else {
            crate::host::push_char(&mut text, '$');
            j = j + 2;
            proof {
                assert(text@ + text_of(gs, j as int) =~= old_text + text_of(gs, j - 2));
            }
        }
    }
    proof {
        assert(text_of(gs, j as int) =~= Seq::<char>::empty());
        assert(text@ =~= text_of(gs, gi));
        assert(j == text_end(gs, gi));
    }

    if j >= n {
        let mut ps: Vec<Part> = Vec::new();
        if !text.as_str().is_empty() {
            ps.push(Part::Text(text));
        }
        proof {
            if ps@.len() == 0 {
                assert(Part::models(ps@) =~= Seq::<PartModel>::empty());
            } else {
                assert(ps@.len() == 1);
                assert(ps@[0].model() == PartModel::Text(text_of(gs, gi)));
                assert(ps@.subrange(1, 1) =~= Seq::<Part>::empty());
                assert(Part::models(ps@.subrange(1, 1)) == Seq::<PartModel>::empty());
                assert(Part::models(ps@) == seq![ps@[0].model()] + Part::models(
                    ps@.subrange(1, 1),
                ));
                assert(Part::models(ps@) =~= seq![PartModel::Text(text_of(gs, gi))]);
            }
            assert(scan(gs, gi) == Ok::<Seq<PartModel>, LiteralErrorModel>(Part::models(ps@)));
        }
        return Ok(ps);
    }
    if j + 1 >= n {
        return Err(LiteralError::DanglingSigil);
    }
    let amp = s.get_char(j + 1) == '&';
    let k = if amp {
        j + 2
    } else {
        j + 1
    };
    if k >= n {
        return Err(LiteralError::BadChar(amp));
    }
    let c = s.get_char(k);
    let (part, next): (Part, usize) = if c == '{' {
        // `${ expr }`, possibly stringified
        let mut m = k + 1;
        while m < n && s.get_char(m) != '}'
            invariant
                k + 1 <= m <= n,
                close_index(gs, (k + 1) as int) == close_index(gs, m as int),
            decreases n - m,
        {
            m = m + 1;
        }
        if m >= n {
            return Err(LiteralError::Unclosed);
        }
        let expr_str = s.substring_char(k + 1, m);
        match crate::host::try_tokenize(expr_str) {
            Some(detail) => {
                return Err(LiteralError::BadExpr(expr_str.to_owned(), detail));
            },
            Option::None => {},
        }
        let mut spliced: Vec<Token> = Vec::new();
        spliced.push(Token::Verbatim(expr_str.to_owned()));
        proof {
            crate::token::lemma_models_index(spliced@);
            assert(Token::models(spliced@) =~= splice_model(gs.subrange(k + 1, m as int)));
        }
        let tokens = if amp {
            stringify_call(spliced)
        } else {
            spliced
        };
        (Part::Expr(tokens), m + 1)
    } else if ident_start_ch(c) {
        // `$name`, possibly stringified
        let mut e = k;
        while e < n && ident_continue_ch(s.get_char(e))
            invariant
                k <= e <= n,
                ident_end(gs, k as int) == ident_end(gs, e as int),
            decreases n - e,
        {
            e = e + 1;
        }
        let name = s.substring_char(k, e).to_owned();
        if !crate::host::parse_ident_ok(name.as_str()) {
            return Err(LiteralError::BadIdent(name));
        }
        let mut var: Vec<Token> = Vec::new();
        var.push(Token::Punct('$', false));
        var.push(Token::Ident(name));
        proof {
            crate::token::lemma_models_index(var@);
            assert(Token::models(var@) =~= var_model(gs.subrange(k as int, e as int)));
        }
        let tokens = if amp {
            stringify_call(var)
        } else {
            var
        };
        (Part::Expr(tokens), e)
    } else {
        return Err(LiteralError::BadChar(amp));
    };

    let rest = match scan_from(s, next) {
        Ok(v) => v,
        Err(e) => {
            return Err(e);
        },
    };
    let ghost grest = rest@;
    let ghost gpart = part;
    let mut ps = rest;
    ps.insert(0, part);
    proof {
        lemma_pmodels_prepend(gpart, grest);
    }
    if !text.as_str().is_empty() {
        let ghost gmid = ps@;
        let ghost gtextpart = Part::Text(text);
        ps.insert(0, Part::Text(text));
        proof {
            lemma_pmodels_prepend(gtextpart, gmid);
        }
    }
    proof {
        let pm = gpart.model();
        let restm = Part::models(grest);
        let t = text_of(gs, gi);
        if t.len() == 0 {
            assert(Part::models(ps@) == seq![pm] + restm);
            assert(Seq::<PartModel>::empty() + seq![pm] + restm =~= seq![pm] + restm);
        } else {
            assert(Part::models(ps@) == seq![PartModel::Text(t)] + (seq![pm] + restm));
            assert(seq![PartModel::Text(t)] + seq![pm] + restm =~= seq![PartModel::Text(t)] + (
            seq![pm] + restm));
        }
        assert(scan(gs, gi) == Ok::<Seq<PartModel>, LiteralErrorModel>(Part::models(ps@)));
    }
    Ok(ps)
}

/// Parses one string literal's decoded text into its ordered parts, or the
/// first error found.
pub fn parse_literal(s: &str) -> (r: Result<Vec<Part>, LiteralError>)
    ensures
        match r {
            Ok(ps) => scan(s@, 0) == Ok::<Seq<PartModel>, LiteralErrorModel>(Part::models(ps@)),
            Err(e) => scan(s@, 0) == Err::<Seq<PartModel>, LiteralErrorModel>(e.model()),
        },
{
    scan_from(s, 0)
}

#[via_fn]
proof fn scan_dec(s: Seq<char>, i: int) {
    lemma_text_end_bounds(s, i);
    let j = text_end(s, i);
    if j < s.len() && j + 1 < s.len() {
        let amp = s[j + 1] == '&';
        let k = if amp {
            j + 2
        } else {
            j + 1
        };
        if k < s.len() {
            if s[k] == '{' {
                lemma_close_index_bounds(s, k + 1);
            } else if is_ident_start(s[k]) {
                lemma_ident_end_bounds(s, k);
                assert(ident_end(s, k) == ident_end(s, k + 1));
                lemma_ident_end_bounds(s, k + 1);
            }
        }
    }
}

} // verus!

use macropol::config::Config;
use macropol::parse::{parse_literal, LiteralError, Part};
use macropol::subst::substitute_metavars;
use macropol::token::{Delim, Token};
use macropol::walk::{expand, transcribe, Diag};

fn ident(s: &str) -> Token {
    Token::Ident(s.to_string())
}

fn punct(c: char) -> Token {
    Token::Punct(c, false)
}

fn joint(c: char) -> Token {
    Token::Punct(c, true)
}

fn lit(sid: u64, v: &str) -> Token {
    Token::Str(sid, v.to_string())
}

fn group(d: Delim, ts: Vec<Token>) -> Token {
    Token::Group(d, ts)
}

fn tokens_eq(a: &Vec<Token>, b: &Vec<Token>) -> bool {
    a.len() == b.len() && a.iter().zip(b.iter()).all(|(x, y)| x.deep_eq(y))
}

/// `::core::concat!( args )`
fn concat_shape(args: Vec<Token>) -> Vec<Token> {
    vec![
        joint(':'),
        punct(':'),
        ident("core"),
        joint(':'),
        punct(':'),
        ident("concat"),
        punct('!'),
        group(Delim::Paren, args),
    ]
}

/// `::core::stringify!( inner )`
fn stringify_shape(inner: Vec<Token>) -> Vec<Token> {
    vec![
        joint(':'),
        punct(':'),
        ident("core"),
        joint(':'),
        punct(':'),
        ident("stringify"),
        punct('!'),
        group(Delim::Paren, inner),
    ]
}

fn default_config() -> Config {
    Config::new(None).unwrap_or_else(|_| panic!("default configuration must build"))
}

#[test]
fn plain_literal_is_unchanged() {
    let cfg = default_config();
    let item = vec![lit(1, "hello world")];
    let (out, diags) = expand(&cfg, &item);
    assert!(diags.is_empty());
    assert!(tokens_eq(&out, &vec![lit(1, "hello world")]));
}

#[test]
fn escape_collapses_to_single_text_segment() {
    let parts = parse_literal("x$$y").unwrap_or_else(|_| panic!("must parse"));
    assert_eq!(parts.len(), 1);
    match &parts[0] {
        Part::Text(t) => assert_eq!(t, "x$y"),
        _ => panic!("expected a text segment"),
    }
    // one part: emitted as a plain literal again
    let cfg = default_config();
    let item = vec![lit(3, "x$$y")];
    let (out, diags) = expand(&cfg, &item);
    assert!(diags.is_empty());
    assert!(tokens_eq(&out, &vec![lit(3, "x$y")]));
}

#[test]
fn identifier_interpolation_builds_concat_call() {
    let parts = parse_literal("a$foo b").unwrap_or_else(|_| panic!("must parse"));
    assert_eq!(parts.len(), 3);
    assert!(matches!(&parts[0], Part::Text(t) if t == "a"));
    assert!(matches!(&parts[2], Part::Text(t) if t == " b"));
    match &parts[1] {
        Part::Expr(ts) => assert!(tokens_eq(ts, &vec![punct('$'), ident("foo")])),
        _ => panic!("expected an expression segment"),
    }

    let cfg = default_config();
    let item = vec![lit(1, "a$foo b")];
    let (out, diags) = expand(&cfg, &item);
    assert!(diags.is_empty());
    let expected = concat_shape(vec![
        lit(1, "a"),
        punct(','),
        punct('$'),
        ident("foo"),
        punct(','),
        lit(1, " b"),
    ]);
    assert!(tokens_eq(&out, &expected));
}

#[test]
fn stringify_form_wraps_the_identifier() {
    let cfg = default_config();
    let item = vec![lit(1, "v=$&x")];
    let (out, diags) = expand(&cfg, &item);
    assert!(diags.is_empty());
    let mut args = vec![lit(1, "v="), punct(',')];
    args.extend(stringify_shape(vec![punct('$'), ident("x")]));
    let expected = concat_shape(args);
    assert!(tokens_eq(&out, &expected));
}

#[test]
fn single_expression_segment_keeps_the_literal() {
    let parts = parse_literal("${1+2}").unwrap_or_else(|_| panic!("must parse"));
    assert_eq!(parts.len(), 1);
    match &parts[0] {
        Part::Expr(ts) => assert!(tokens_eq(ts, &vec![Token::Verbatim("1+2".to_string())])),
        _ => panic!("expected an expression segment"),
    }
    let cfg = default_config();
    let item = vec![lit(9, "${1+2}")];
    let (out, diags) = expand(&cfg, &item);
    assert!(diags.is_empty());
    assert!(tokens_eq(&out, &vec![lit(9, "${1+2}")]));
}

#[test]
fn leading_text_before_expression_is_rewritten() {
    let cfg = default_config();
    let item = vec![lit(9, "a${1+2}")];
    let (out, diags) = expand(&cfg, &item);
    assert!(diags.is_empty());
    let expected = concat_shape(vec![
        lit(9, "a"),
        punct(','),
        Token::Verbatim("1+2".to_string()),
    ]);
    assert!(tokens_eq(&out, &expected));
}

#[test]
fn error_is_isolated_to_the_bad_literal() {
    let cfg = default_config();
    let item = vec![lit(1, "${"), lit(2, "a$b c")];
    let mut diags: Vec<Diag> = Vec::new();
    let out = transcribe(&item, &cfg, &mut diags);
    // the malformed literal is kept verbatim, the sibling is still rewritten
    assert_eq!(diags.len(), 1);
    assert_eq!(diags[0].sid, 1);
    assert_eq!(diags[0].error.message(), "unclosed `${ ... }`");
    let mut expected = vec![lit(1, "${")];
    expected.extend(concat_shape(vec![
        lit(2, "a"),
        punct(','),
        punct('$'),
        ident("b"),
        punct(','),
        lit(2, " c"),
    ]));
    assert!(tokens_eq(&out, &expected));

    // a full pass hands the original item back, with the diagnostics
    let (kept, diags2) = expand(&cfg, &item);
    assert_eq!(diags2.len(), 1);
    assert!(tokens_eq(&kept, &item));
}

#[test]
fn custom_template_receives_the_joined_parts() {
    // template `foo!($parts_comma_sep)`, assembled parts `a, b`
    let template = vec![
        ident("foo"),
        punct('!'),
        group(Delim::Paren, vec![punct('$'), ident("parts_comma_sep")]),
    ];
    let repl = vec![ident("a"), punct(','), ident("b")];
    let out = substitute_metavars(&template, &repl)
        .unwrap_or_else(|_| panic!("the placeholder is recognized"));
    let expected = vec![
        ident("foo"),
        punct('!'),
        group(Delim::Paren, vec![ident("a"), punct(','), ident("b")]),
    ];
    assert!(tokens_eq(&out, &expected));
}

#[test]
fn unknown_placeholder_is_rejected_up_front() {
    let template = vec![punct('$'), ident("bogus")];
    match Config::new(Some(template)) {
        Err(e) => {
            assert_eq!(e.name, "bogus");
            assert_eq!(
                e.message(),
                "unknown metavariable in `concat` parameter value: `$bogus`"
            );
        }
        Ok(_) => panic!("an unknown metavariable must be rejected"),
    }
}

#[test]
fn template_escape_collapses() {
    let template = vec![ident("a"), punct('$'), punct('$'), ident("parts_comma_sep")];
    let cfg = Config::new(Some(template)).unwrap_or_else(|_| panic!("escape must be accepted"));
    let item = vec![lit(1, "x$y z")];
    let (out, diags) = expand(&cfg, &item);
    assert!(diags.is_empty());
    // `$$` collapses to a literal `$`; the following identifier is then
    // plain template text, not a metavariable
    let expected = vec![ident("a"), punct('$'), ident("parts_comma_sep")];
    assert!(tokens_eq(&out, &expected));
}

#[test]
fn trailing_template_dollar_passes_through() {
    let template = vec![ident("a"), punct('$')];
    let cfg = Config::new(Some(template)).unwrap_or_else(|_| panic!("must be accepted"));
    let item = vec![lit(1, "x$y z")];
    let (out, diags) = expand(&cfg, &item);
    assert!(diags.is_empty());
    assert!(tokens_eq(&out, &vec![ident("a"), punct('$')]));
}

#[test]
fn nesting_and_siblings_are_preserved() {
    let cfg = default_config();
    let item = vec![group(
        Delim::Brace,
        vec![
            group(Delim::Paren, vec![ident("x"), lit(7, "q${1}w")]),
            Token::Other("42".to_string()),
        ],
    )];
    let (out, diags) = expand(&cfg, &item);
    assert!(diags.is_empty());
    let mut inner_par = vec![ident("x")];
    inner_par.extend(concat_shape(vec![
        lit(7, "q"),
        punct(','),
        Token::Verbatim("1".to_string()),
        punct(','),
        lit(7, "w"),
    ]));
    let expected = vec![group(
        Delim::Brace,
        vec![group(Delim::Paren, inner_par), Token::Other("42".to_string())],
    )];
    assert!(tokens_eq(&out, &expected));
}

#[test]
fn dangling_sigil_is_an_error() {
    match parse_literal("end$") {
        Err(e) => assert_eq!(e.message(), "`$` must be followed by something"),
        Ok(_) => panic!("a dangling `$` must be rejected"),
    }
}

#[test]
fn bad_character_after_sigil_is_an_error() {
    match parse_literal("a$ b") {
        Err(e) => assert_eq!(
            e.message(),
            "`$` must be followed by `&`, `{ ... }`, or a valid identifier"
        ),
        Ok(_) => panic!("`$ ` must be rejected"),
    }
    match parse_literal("a$&%") {
        Err(e) => assert_eq!(
            e.message(),
            "`$&` must be followed by `{ ... }` or a valid identifier"
        ),
        Ok(_) => panic!("`$&%` must be rejected"),
    }
}

#[test]
fn keyword_is_an_invalid_metavariable_name() {
    match parse_literal("a$fn b") {
        Err(e) => {
            assert!(matches!(&e, LiteralError::BadIdent(n) if n == "fn"));
            assert_eq!(e.message(), "invalid metavariable name: `fn`");
        }
        Ok(_) => panic!("a keyword must be rejected"),
    }
}

#[test]
fn untokenizable_expression_is_an_error() {
    match parse_literal("a${)}b") {
        Err(e) => {
            assert!(matches!(&e, LiteralError::BadExpr(expr, _) if expr == ")"));
            assert!(e.message().starts_with("could not tokenize `)`: "));
        }
        Ok(_) => panic!("an untokenizable expression must be rejected"),
    }
}

#[test]
fn test() {
    // the custom `concat` template lets the emitted call use the bare name
    // `concat!`, and the literal `"1 * $t * 2"` becomes its three arguments
    let template = vec![
        ident("concat"),
        punct('!'),
        group(Delim::Paren, vec![punct('$'), ident("parts_comma_sep")]),
    ];
    let cfg = Config::new(Some(template)).unwrap_or_else(|_| panic!("template must be accepted"));
    let item = vec![lit(5, "1 * $t * 2")];
    let (out, diags) = expand(&cfg, &item);
    assert!(diags.is_empty());
    let expected = vec![
        ident("concat"),
        punct('!'),
        group(
            Delim::Paren,
            vec![
                lit(5, "1 * "),
                punct(','),
                punct('$'),
                ident("t"),
                punct(','),
                lit(5, " * 2"),
            ],
        ),
    ];
    assert!(tokens_eq(&out, &expected));
}

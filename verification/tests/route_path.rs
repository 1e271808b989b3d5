use connector::route::{parse_route_tokens, reserved, PathToken, RoutePathError};

fn route_path_vars(path: &str) -> Result<Vec<String>, RoutePathError> {
    connector::route::route_path_vars(path).vars
}

fn names(v: &[&str]) -> Vec<String> {
    v.iter().map(|s| s.to_string()).collect()
}

#[test]
fn variables_are_named_after_colons() {
    assert_eq!(route_path_vars("/user/:id/comments/:comment_id"), Ok(names(&["id", "comment_id"])));
}

#[test]
fn plain_paths_have_no_variables() {
    assert_eq!(route_path_vars("/"), Ok(vec![]));
    assert_eq!(route_path_vars("/issues/new"), Ok(vec![]));
}

#[test]
fn path_must_start_with_slash() {
    assert_eq!(route_path_vars("user/:id"), Err(RoutePathError::ExpectedSlash));
    assert_eq!(route_path_vars(""), Err(RoutePathError::ExpectedSlash));
}

#[test]
fn other_tokens_are_invalid() {
    assert_eq!(route_path_vars("/user-name"), Err(RoutePathError::InvalidPath));
    assert_eq!(route_path_vars("/a/:1"), Err(RoutePathError::InvalidPath));
    assert_eq!(route_path_vars("/static/:type"), Err(RoutePathError::InvalidPath));
    assert_eq!(route_path_vars("/a.b"), Err(RoutePathError::InvalidPath));
}

#[test]
fn colon_without_name_is_skipped() {
    assert_eq!(route_path_vars("/a/:"), Ok(vec![]));
}

#[test]
fn unlexable_text_is_a_lex_error() {
    assert_eq!(route_path_vars("/\"open"), Err(RoutePathError::Lex));
}

#[test]
fn tokens_grammar() {
    let toks = vec![
        PathToken::Punct('/'),
        PathToken::Ident("user".to_string()),
        PathToken::Punct('/'),
        PathToken::Punct(':'),
        PathToken::Ident("id".to_string()),
    ];
    assert_eq!(parse_route_tokens(&toks), Ok(names(&["id"])));
    let bad = vec![PathToken::Punct('/'), PathToken::Group];
    assert_eq!(parse_route_tokens(&bad), Err(RoutePathError::InvalidPath));
    let kw = vec![PathToken::Punct('/'), PathToken::Ident("self".to_string())];
    assert_eq!(parse_route_tokens(&kw), Err(RoutePathError::InvalidPath));
}

#[test]
fn lexed_tokens_are_returned() {
    let res = connector::route::route_path_vars("/a/:b");
    assert_eq!(res.tokens.map(|t| t.len()), Some(5));
    assert!(connector::route::route_path_vars("/\"open").tokens.is_none());
}

#[test]
fn reserved_words_are_those_syn_rejects_as_identifiers() {
    let words = [
        "_", "abstract", "as", "async", "await", "become", "box", "break", "const", "continue",
        "crate", "do", "dyn", "else", "enum", "extern", "false", "final", "fn", "for", "if",
        "impl", "in", "let", "loop", "macro", "match", "mod", "move", "mut", "override", "priv",
        "pub", "ref", "return", "Self", "self", "static", "struct", "super", "trait", "true",
        "try", "type", "typeof", "unsafe", "unsized", "use", "virtual", "where", "while", "yield",
        "id", "file", "user", "new", "union", "default", "r#type", "Type", "selfish", "x1",
    ];
    for w in words {
        assert_eq!(reserved(w), syn::parse_str::<syn::Ident>(w).is_err(), "{}", w);
    }
}

#[test]
fn simple_text_lexes_as_slashes_colons_and_words() {
    let tokens = connector::route::route_path_vars("/a::b_1/_x/fn").tokens.unwrap();
    let shown: Vec<String> = tokens
        .iter()
        .map(|t| match t {
            PathToken::Punct(c) => format!("punct {}", c),
            PathToken::Ident(w) => format!("ident {}", w),
            PathToken::Literal => "literal".to_string(),
            PathToken::Group => "group".to_string(),
        })
        .collect();
    assert_eq!(
        shown,
        vec!["punct /", "ident a", "punct :", "punct :", "ident b_1", "punct /", "ident _x", "punct /", "ident fn"]
    );
}

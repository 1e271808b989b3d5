use connector::connection::routing::{parse_path, PathOrVar};
use connector::connection::{Connection, IpAddr, Method, RequestParts};

type Conn = Connection<Vec<(String, String)>, Vec<u8>, u8>;

fn conn(method: Method, path: &str) -> Conn {
    let parts = RequestParts {
        method,
        scheme: None,
        host: None,
        path: path.to_string(),
        query: None,
        headers: Vec::new(),
        body: Vec::new(),
    };
    Connection::from_parts(parts, IpAddr::V4([127, 0, 0, 1]), 8080, Vec::new())
}

fn describe(chunks: &[PathOrVar]) -> Vec<String> {
    chunks
        .iter()
        .map(|c| match c {
            PathOrVar::Path(s) => format!("path:{}", s),
            PathOrVar::Var => "var".to_string(),
        })
        .collect()
}

#[test]
fn parse_path_splits_literals_and_variables() {
    let chunks = parse_path("/user/:id/comments/:comment_id".to_string());
    assert_eq!(describe(&chunks), vec!["path:/user/", "var", "path:/comments/", "var"]);
}

#[test]
fn parse_path_keeps_text_after_the_last_variable() {
    let chunks = parse_path("/user/:id/comments".to_string());
    assert_eq!(describe(&chunks), vec!["path:/user/", "var", "path:/comments"]);
}

#[test]
fn parse_path_of_a_literal_pattern_is_one_literal() {
    assert_eq!(describe(&parse_path("/issues/new".to_string())), vec!["path:/issues/new"]);
    assert!(parse_path("".to_string()).is_empty());
}

#[test]
fn parse_path_leading_variable_has_empty_literal() {
    let chunks = parse_path(":file".to_string());
    assert_eq!(describe(&chunks), vec!["path:", "var"]);
}

#[test]
fn parse_path_ignores_colons_inside_a_variable_name() {
    let chunks = parse_path("/a/:x:y/b/:z".to_string());
    assert_eq!(describe(&chunks), vec!["path:/a/", "var", "path:/b/", "var"]);
}

#[test]
fn match_path_captures_variables_in_order() {
    let c = conn(Method::Get, "/user/42/comments/7");
    assert_eq!(
        c.match_path("/user/:id/comments/:comment_id"),
        Some(vec!["42".to_string(), "7".to_string()])
    );
}

#[test]
fn match_path_matches_only_the_start_of_the_path() {
    let c = conn(Method::Get, "/user/42/anything/else");
    assert_eq!(c.match_path("/user/:id"), Some(vec!["42".to_string()]));
}

#[test]
fn match_path_rejects_a_different_literal() {
    let c = conn(Method::Get, "/users/42");
    assert_eq!(c.match_path("/user/:id"), None);
}

#[test]
fn match_path_rejects_a_path_shorter_than_a_literal() {
    let c = conn(Method::Get, "/user/42");
    assert_eq!(c.match_path("/user/:id/comments/:comment_id"), None);
}

#[test]
fn match_path_variable_may_be_empty() {
    let c = conn(Method::Get, "/user/");
    assert_eq!(c.match_path("/user/:id"), Some(vec!["".to_string()]));
}

#[test]
fn match_path_literal_pattern_matches_paths_starting_with_it() {
    assert_eq!(conn(Method::Get, "/style.css").match_path("/issues"), None);
    assert_eq!(conn(Method::Get, "/issues/new.html").match_path("/issues"), Some(vec![]));
    assert_eq!(conn(Method::Get, "/issues").match_path("/issues"), Some(vec![]));
    assert_eq!(conn(Method::Get, "/issue").match_path("/issues"), None);
}

#[test]
fn match_path_matches_the_literal_after_the_last_variable() {
    assert_eq!(conn(Method::Get, "/user/42/show").match_path("/user/:id/edit"), None);
    assert_eq!(
        conn(Method::Get, "/user/42/edit/more").match_path("/user/:id/edit"),
        Some(vec!["42".to_string()])
    );
}

#[test]
fn match_path_variable_names_do_not_matter() {
    let c = conn(Method::Get, "/user/42/edit");
    assert_eq!(c.match_path("/user/:id/edit"), c.match_path("/user/:x/edit"));
}

#[test]
fn match_path_handles_multibyte_text() {
    let c = conn(Method::Get, "/café/3");
    assert_eq!(c.match_path("/café/:n"), Some(vec!["3".to_string()]));
}

#[test]
fn match_path_gives_back_filled_values() {
    let c = conn(Method::Get, "/a/x1/b/y2/rest");
    assert_eq!(c.match_path("/a/:p/b/:q"), Some(vec!["x1".to_string(), "y2".to_string()]));
}

#[test]
fn match_method_compares_names() {
    let c = conn(Method::Get, "/");
    assert!(c.match_method(Method::Get));
    assert!(!c.match_method(Method::Post));
    assert!(c.match_method(Method::from_name("GET")));
    let e = conn(Method::from_name("PURGE"), "/");
    assert!(e.match_method(Method::Extension("PURGE".to_string())));
    assert!(!e.match_method(Method::Delete));
}

#[test]
fn method_from_name_gives_standard_methods() {
    assert!(matches!(Method::from_name("DELETE"), Method::Delete));
    assert!(matches!(Method::from_name("PATCH"), Method::Patch));
    assert!(matches!(Method::from_name("get"), Method::Extension(_)));
    assert_eq!(Method::Options.as_str(), "OPTIONS");
}

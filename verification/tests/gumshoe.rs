use connector::connection::{Connection, IpAddr, Method, RequestParts};
use connector::gumshoe::{route_issue, route_simple_issue, Issue, IssueRoute};

fn conn(method: Method, path: &str) -> Connection<(), (), ()> {
    let parts = RequestParts {
        method,
        scheme: None,
        host: None,
        path: path.to_string(),
        query: None,
        headers: (),
        body: (),
    };
    Connection::from_parts(parts, IpAddr::V4([10, 0, 0, 1]), 1234, ())
}

#[test]
fn get_issue_by_id() {
    assert_eq!(route_issue(&conn(Method::Get, "/issues/12")), IssueRoute::Show(12));
    assert_eq!(route_issue(&conn(Method::Get, "/issues/+7")), IssueRoute::Show(7));
    assert_eq!(route_issue(&conn(Method::Get, "/issues/007/x")), IssueRoute::Show(7));
}

#[test]
fn delete_and_put_by_id() {
    assert_eq!(route_issue(&conn(Method::Delete, "/issues/3")), IssueRoute::Delete(3));
    assert_eq!(route_issue(&conn(Method::Put, "/issues/4294967295")), IssueRoute::Edit(4294967295));
}

#[test]
fn id_that_is_not_a_u32_falls_through() {
    assert_eq!(route_issue(&conn(Method::Put, "/issues/4294967296")), IssueRoute::NoRoute);
    assert_eq!(route_issue(&conn(Method::Delete, "/issues/-1")), IssueRoute::NoRoute);
    assert_eq!(route_issue(&conn(Method::Get, "/issues/abc")), IssueRoute::Index);
    assert_eq!(route_issue(&conn(Method::Get, "/issues/+")), IssueRoute::Index);
    assert_eq!(route_issue(&conn(Method::Get, "/issues/")), IssueRoute::Index);
}

#[test]
fn post_to_issues_new_goes_to_new() {
    assert_eq!(route_issue(&conn(Method::Post, "/issues/new")), IssueRoute::New);
    assert_eq!(route_issue(&conn(Method::Post, "/issues/new/x")), IssueRoute::New);
    assert_eq!(route_issue(&conn(Method::Post, "/anything")), IssueRoute::NoRoute);
}

#[test]
fn index_and_static_files() {
    assert_eq!(route_issue(&conn(Method::Get, "/issues")), IssueRoute::Index);
    assert_eq!(route_issue(&conn(Method::Get, "/issues/new.html")), IssueRoute::Index);
    assert_eq!(
        route_issue(&conn(Method::Get, "/style.css")),
        IssueRoute::Static("style.css".to_string())
    );
}

#[test]
fn simple_tracker_routes() {
    assert_eq!(route_simple_issue(&conn(Method::Get, "/issues/5")), IssueRoute::Show(5));
    assert_eq!(route_simple_issue(&conn(Method::Get, "/")), IssueRoute::Index);
    assert_eq!(route_simple_issue(&conn(Method::Get, "/issues/x")), IssueRoute::Index);
    assert_eq!(route_simple_issue(&conn(Method::Post, "/issues/5")), IssueRoute::NoRoute);
}

#[test]
fn other_methods_have_no_route() {
    assert_eq!(route_issue(&conn(Method::Patch, "/issues/1")), IssueRoute::NoRoute);
    assert_eq!(route_issue(&conn(Method::Delete, "/other")), IssueRoute::NoRoute);
}

#[test]
fn issue_holds_its_fields() {
    let i = Issue { id: 1, title: "t".to_string(), body: "b".to_string() };
    assert_eq!(i.id, 1);
    assert_eq!(i.title, "t");
    assert_eq!(i.body, "b");
}

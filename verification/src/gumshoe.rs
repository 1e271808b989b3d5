//! The issue tracker built on connections: its record type, and which handler its
//! routes send a request to.

use vstd::prelude::*;

use crate::connection::routing::match_pattern;
use crate::connection::{Connection, Method};
use crate::text::chars_of;

verus! {

/// An issue of the tracker.
#[derive(Debug)]
pub struct Issue {
    pub id: i32,
    pub title: String,
    pub body: String,
}

/// The value of a decimal digit character.
pub open spec fn digit_value(c: char) -> int {
    c as int - '0' as int
}

/// The number written by the decimal digits `ds`.
pub open spec fn digits_value(ds: Seq<char>) -> int
    decreases ds.len(),
{
    if ds.len() == 0 {
        0
    } else {
        digits_value(ds.drop_last()) * 10 + digit_value(ds.last())
    }
}

/// Whether every character of `ds` is one of `0`..`9`.
pub open spec fn all_digits(ds: Seq<char>) -> bool {
    forall|k: int| 0 <= k < ds.len() ==> '0' <= #[trigger] ds[k] <= '9'
}

/// The `u32` written in `s`: an optional `+` and then one or more decimal digits, whose
/// value fits in a `u32`.
pub open spec fn decimal_u32(s: Seq<char>) -> Option<u32> {
    let ds = if s.len() > 0 && s[0] == '+' { s.drop_first() } else { s };
    if ds.len() > 0 && all_digits(ds) && digits_value(ds) <= u32::MAX {
        Some(digits_value(ds) as u32)
    } else {
        None
    }
}

/// The value of the first `k` digits never exceeds the value of all of them.
proof fn lemma_digits_value_prefix(ds: Seq<char>, k: int)
    requires
        all_digits(ds),
        0 <= k <= ds.len(),
    ensures
        0 <= digits_value(ds.take(k)) <= digits_value(ds),
    decreases ds.len(),
{
    if ds.len() > 0 {
        let init = ds.drop_last();
        assert(all_digits(init)) by {
            assert forall|m: int| 0 <= m < init.len() implies '0' <= #[trigger] init[m] <= '9' by {
                assert(init[m] == ds[m]);
            }
        }
        if k < ds.len() {
            lemma_digits_value_prefix(init, k);
            assert(init.take(k) == ds.take(k));
        } else {
            assert(ds.take(k) == ds);
            lemma_digits_value_prefix(init, init.len() as int);
            assert(init.take(init.len() as int) == init);
        }
    }
}

/// Reads a `u32` as `str::parse::<u32>` does: an optional `+`, then one or more decimal
/// digits whose value fits in a `u32`.
fn parse_u32(s: &str) -> (res: Option<u32>)
    ensures
        res == decimal_u32(s@),
{
    let cs = chars_of(s);
    let start: usize = if cs.len() > 0 && cs[0] == '+' { 1 } else { 0 };
    let ghost ds = cs@.skip(start as int);
    assert(ds == (if s@.len() > 0 && s@[0] == '+' { s@.drop_first() } else { s@ }));
    if start == cs.len() {
        return None;
    }
    let mut acc: u64 = 0;
    let mut i: usize = start;
    assert(ds.take(0) =~= Seq::<char>::empty());
    while i < cs.len()
        invariant
            start <= i <= cs@.len(),
            start <= 1,
            ds == cs@.skip(start as int),
            ds == (if s@.len() > 0 && s@[0] == '+' { s@.drop_first() } else { s@ }),
            ds.len() > 0,
            all_digits(ds.take(i - start)),
            acc == digits_value(ds.take(i - start)),
            acc <= u32::MAX,
        decreases cs@.len() - i,
    {
        let c = cs[i];
        let ghost k: int = i - start;
        assert(ds[k] == c);
        if c < '0' || c > '9' {
            assert(!all_digits(ds)) by {
                assert(!('0' <= ds[k] <= '9'));
            }
            return None;
        }
        let d: u64 = (c as u32 - 48) as u64;
        acc = acc * 10 + d;
        i = i + 1;
        proof {
            let t = ds.take(k + 1);
            assert(t.drop_last() == ds.take(k));
            assert(t.last() == c);
            assert(all_digits(t)) by {
                assert forall|m: int| 0 <= m < t.len() implies '0' <= #[trigger] t[m] <= '9' by {
                    if m < k {
                        assert(t[m] == ds.take(k)[m]);
                    }
                }
            }
        }
        if acc > 4294967295 {
            proof {
                let t = ds.take(k + 1);
                if all_digits(ds) {
                    lemma_digits_value_prefix(ds, k + 1);
                }
            }
            return None;
        }
    }
    assert(ds.take(i - start) == ds);
    Some(acc as u32)
}

/// The handler a request goes to.
#[derive(Debug, PartialEq, Eq)]
pub enum IssueRoute {
    New,
    Show(u32),
    Delete(u32),
    Edit(u32),
    Index,
    Static(String),
    NoRoute,
}

/// The value of an `IssueRoute`.
pub enum IssueRouteView {
    New,
    Show(u32),
    Delete(u32),
    Edit(u32),
    Index,
    Static(Seq<char>),
    NoRoute,
}

impl View for IssueRoute {
    type V = IssueRouteView;

    open spec fn view(&self) -> IssueRouteView {
        match self {
            IssueRoute::New => IssueRouteView::New,
            IssueRoute::Show(id) => IssueRouteView::Show(*id),
            IssueRoute::Delete(id) => IssueRouteView::Delete(*id),
            IssueRoute::Edit(id) => IssueRouteView::Edit(*id),
            IssueRoute::Index => IssueRouteView::Index,
            IssueRoute::Static(f) => IssueRouteView::Static(f@),
            IssueRoute::NoRoute => IssueRouteView::NoRoute,
        }
    }
}

/// The id captured from `/issues/:id`, when the path matches and the id is a `u32`.
pub open spec fn issue_id(path: Seq<char>) -> Option<u32> {
    match match_pattern("/issues/:id"@, path) {
        Some(vs) => if vs.len() > 0 {
            decimal_u32(vs[0])
        } else {
            None
        },
        None => None,
    }
}

/// The routes of the tracker, tried in order: `POST /issues/new`, `GET /issues/:id`,
/// `DELETE /issues/:id`, `PUT /issues/:id`, `GET /issues`, then `GET /:file`.
pub open spec fn issue_route(method: Seq<char>, path: Seq<char>) -> IssueRouteView {
    if method == "POST"@ && match_pattern("/issues/new"@, path) is Some {
        IssueRouteView::New
    } else if method == "GET"@ && issue_id(path) is Some {
        IssueRouteView::Show(issue_id(path).unwrap())
    } else if method == "DELETE"@ && issue_id(path) is Some {
        IssueRouteView::Delete(issue_id(path).unwrap())
    } else if method == "PUT"@ && issue_id(path) is Some {
        IssueRouteView::Edit(issue_id(path).unwrap())
    } else if method == "GET"@ && match_pattern("/issues"@, path) is Some {
        IssueRouteView::Index
    } else if method == "GET"@ && (match_pattern("/:file"@, path) matches Some(vs) && vs.len() > 0) {
        IssueRouteView::Static(match_pattern("/:file"@, path).unwrap()[0])
    } else {
        IssueRouteView::NoRoute
    }
}

/// The id of `/issues/:id` in the connection's path.
fn captured_id<H, B, S>(conn: &Connection<H, B, S>) -> (id: Option<u32>)
    ensures
        id == issue_id(conn@.path),
{
    match conn.match_path("/issues/:id") {
        Some(vars) => if vars.len() > 0 {
            parse_u32(vars[0].as_str())
        } else {
            None
        },
        None => None,
    }
}

/// Where the tracker sends a request.
pub fn route_issue<H, B, S>(conn: &Connection<H, B, S>) -> (route: IssueRoute)
    ensures
        route@ == issue_route(conn@.method, conn@.path),
{
    if conn.match_method(Method::Post) && conn.match_path("/issues/new").is_some() {
        return IssueRoute::New;
    }
    let id = captured_id(conn);
    if let Some(id) = id {
        if conn.match_method(Method::Get) {
            return IssueRoute::Show(id);
        }
        if conn.match_method(Method::Delete) {
            return IssueRoute::Delete(id);
        }
        if conn.match_method(Method::Put) {
            return IssueRoute::Edit(id);
        }
    }
    if conn.match_method(Method::Get) {
        if conn.match_path("/issues").is_some() {
            return IssueRoute::Index;
        }
        if let Some(vars) = conn.match_path("/:file") {
            if vars.len() > 0 {
                return IssueRoute::Static(vars[0].clone());
            }
        }
    }
    IssueRoute::NoRoute
}


/// The routes of the tracker that keeps its template registry and database pool
/// process-wide, tried in order: `GET /issues/:id`, then `GET /`.
pub open spec fn simple_issue_route(method: Seq<char>, path: Seq<char>) -> IssueRouteView {
    if method == "GET"@ && issue_id(path) is Some {
        IssueRouteView::Show(issue_id(path).unwrap())
    } else if method == "GET"@ && match_pattern("/"@, path) is Some {
        IssueRouteView::Index
    } else {
        IssueRouteView::NoRoute
    }
}

/// Where the process-wide tracker sends a request.
pub fn route_simple_issue<H, B, S>(conn: &Connection<H, B, S>) -> (route: IssueRoute)
    ensures
        route@ == simple_issue_route(conn@.method, conn@.path),
{
    if conn.match_method(Method::Get) {
        if let Some(id) = captured_id(conn) {
            return IssueRoute::Show(id);
        }
        if conn.match_path("/").is_some() {
            return IssueRoute::Index;
        }
    }
    IssueRoute::NoRoute
}


/// The tracker's routes follow the method: only a POST is created, only a GET shows an
/// issue, lists them or serves a file, only a DELETE deletes and only a PUT edits.
pub proof fn law_issue_routes_follow_the_method(method: Seq<char>, path: Seq<char>)
    ensures
        issue_route(method, path) is New ==> method == "POST"@,
        issue_route(method, path) is Show ==> method == "GET"@,
        issue_route(method, path) is Index ==> method == "GET"@,
        issue_route(method, path) is Static ==> method == "GET"@,
        issue_route(method, path) is Delete ==> method == "DELETE"@,
        issue_route(method, path) is Edit ==> method == "PUT"@,
{
}

/// The process-wide tracker only routes GET requests: any other method goes nowhere.
pub proof fn law_simple_routes_are_get_only(method: Seq<char>, path: Seq<char>)
    ensures
        method != "GET"@ ==> simple_issue_route(method, path) is NoRoute,
        !(simple_issue_route(method, path) is NoRoute) ==> method == "GET"@,
{
}

/// The character of the decimal digit `d`.
pub open spec fn digit_char(d: nat) -> char {
    (d + 48) as char
}

/// The decimal text of `n`, without leading zeros (`0` is "0").
pub open spec fn decimal_text(n: nat) -> Seq<char>
    decreases n,
{
    if n < 10 {
        seq![digit_char(n)]
    } else {
        decimal_text(n / 10) + seq![digit_char(n % 10)]
    }
}

/// The decimal text of a number is made of digits and has that number as its value.
proof fn lemma_decimal_text(n: nat)
    ensures
        decimal_text(n).len() > 0,
        all_digits(decimal_text(n)),
        digits_value(decimal_text(n)) == n,
    decreases n,
{
    if n >= 10 {
        lemma_decimal_text(n / 10);
        let t = decimal_text(n / 10);
        let d = digit_char(n % 10);
        let s = t + seq![d];
        assert(s.drop_last() == t);
        assert(s.last() == d);
        assert(d as int == n % 10 + 48);
        assert(all_digits(s)) by {
            assert forall|k: int| 0 <= k < s.len() implies '0' <= #[trigger] s[k] <= '9' by {
                if k < t.len() {
                    assert(s[k] == t[k]);
                }
            }
        }
        assert(digit_value(d) == n % 10);
        assert(digits_value(s) == digits_value(t) * 10 + digit_value(d));
        assert((n / 10) * 10 + n % 10 == n) by (nonlinear_arith);
    } else {
        let s = decimal_text(n);
        assert(s[0] as int == n + 48);
        assert(s.drop_last() =~= Seq::<char>::empty());
        assert(digits_value(s.drop_last()) == 0);
        assert(s.last() == s[0]);
        assert(digit_value(s.last()) == n);
        assert(digits_value(s) == digits_value(s.drop_last()) * 10 + digit_value(s.last()));
    }
}

/// Reading the decimal text of a `u32` gives the number back; so does the same text with a
/// leading `+`.
pub proof fn law_decimal_round_trip(n: u32)
    ensures
        decimal_u32(decimal_text(n as nat)) == Some(n),
        decimal_u32(seq!['+'] + decimal_text(n as nat)) == Some(n),
{
    lemma_decimal_text(n as nat);
    let t = decimal_text(n as nat);
    assert(t[0] != '+');
    assert((seq!['+'] + t).drop_first() == t);
}

}

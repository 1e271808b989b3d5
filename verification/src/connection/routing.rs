//! Route patterns such as `/user/:id/comments/:comment_id`, and matching them
//! against request paths.

use vstd::prelude::*;

use super::{Connection, Method};
use crate::text::{
    chars_of, find_char, has_prefix_at, index_of, lemma_index_of, lemma_index_of_concat_found,
    lemma_index_of_concat_stop, lemma_index_of_unique, same_text, string_of_range,
};

verus! {

/// One piece of a parsed route pattern: a literal stretch of path, or a variable.
#[derive(Debug)]
pub enum PathOrVar {
    Path(String),
    Var,
}

/// The mathematical value of a `PathOrVar`.
pub enum Chunk {
    Path(Seq<char>),
    Var,
}

impl View for PathOrVar {
    type V = Chunk;

    open spec fn view(&self) -> Chunk {
        match self {
            PathOrVar::Path(s) => Chunk::Path(s@),
            PathOrVar::Var => Chunk::Var,
        }
    }
}

/// The views of a sequence of chunks.
pub open spec fn chunk_views(cs: Seq<PathOrVar>) -> Seq<Chunk> {
    cs.map_values(|c: PathOrVar| c@)
}

/// The chunks of a pattern. The text before the first `:` is a literal chunk and the
/// `:` starts a variable; the variable's name runs up to (not including) the next `/`,
/// and the pattern continues from that `/`. Text with no `:` left in it is a final
/// literal chunk, unless it is empty.
pub open spec fn chunks_of(p: Seq<char>) -> Seq<Chunk>
    decreases p.len(),
{
    let i = index_of(p, ':');
    if 0 <= i < p.len() {
        let rest = p.skip(i + 1);
        let j = index_of(rest, '/');
        if 0 <= j <= rest.len() {
            seq![Chunk::Path(p.take(i)), Chunk::Var] + chunks_of(rest.skip(j))
        } else {
            seq![]
        }
    } else if p.len() > 0 {
        seq![Chunk::Path(p)]
    } else {
        seq![]
    }
}

/// Breaks a route pattern into literal chunks and variables:
/// `/user/:id/comments/:comment_id` gives `[/user/, var, /comments/, var]`, and
/// `/user/:id/edit` gives `[/user/, var, /edit]`.
pub fn parse_path(p: String) -> (chunks: Vec<PathOrVar>)
    ensures
        chunk_views(chunks@) == chunks_of(p@),
{
    let cs = chars_of(p.as_str());
    let mut chunks: Vec<PathOrVar> = Vec::new();
    let mut pos: usize = 0;
    assert(cs@.skip(0) == cs@);
    assert(chunk_views(chunks@) + chunks_of(cs@) == chunks_of(cs@));
    while pos < cs.len()
        invariant
            pos <= cs@.len(),
            cs@ == p@,
            chunks_of(p@) == chunk_views(chunks@) + chunks_of(cs@.skip(pos as int)),
        decreases cs@.len() - pos,
    {
        let ghost s = cs@.skip(pos as int);
        let colon = find_char(&cs, pos, ':');
        proof {
            lemma_index_of(s, ':');
        }
        if colon == cs.len() {
            let lit = string_of_range(&cs, pos, colon);
            let ghost old_chunks = chunks@;
            chunks.push(PathOrVar::Path(lit));
            proof {
                assert(cs@.subrange(pos as int, colon as int) == s);
                assert(chunks_of(s) == seq![Chunk::Path(s)]);
                assert(chunk_views(chunks@) == chunk_views(old_chunks) + seq![Chunk::Path(s)]);
            }
            pos = cs.len();
            assert(chunks_of(cs@.skip(pos as int)) == Seq::<Chunk>::empty()) by {
                assert(cs@.skip(pos as int).len() == 0);
            }
            assert(chunk_views(chunks@) + Seq::<Chunk>::empty() == chunk_views(chunks@));
        } else {
            let slash = find_char(&cs, colon + 1, '/');
            let lit = string_of_range(&cs, pos, colon);
            let ghost old_chunks = chunks@;
            chunks.push(PathOrVar::Path(lit));
            chunks.push(PathOrVar::Var);
            proof {
                let i = colon - pos;
                let rest = s.skip(i + 1);
                assert(rest == cs@.skip(colon + 1));
                lemma_index_of(rest, '/');
                assert(s.take(i) == cs@.subrange(pos as int, colon as int));
                assert(rest.skip(index_of(rest, '/')) == cs@.skip(slash as int));
                assert(chunks_of(s) == seq![Chunk::Path(s.take(i)), Chunk::Var] + chunks_of(
                    cs@.skip(slash as int),
                ));
                assert(chunk_views(chunks@) == chunk_views(old_chunks) + seq![
                    Chunk::Path(s.take(i)),
                    Chunk::Var,
                ]);
            }
            pos = slash;
        }
    }
    proof {
        assert(cs@.skip(pos as int).len() == 0);
        assert(chunks_of(cs@.skip(pos as int)) == Seq::<Chunk>::empty());
        assert(chunk_views(chunks@) + Seq::<Chunk>::empty() == chunk_views(chunks@));
    }
    chunks
}

/// The strings of a sequence of `String`s.
pub open spec fn string_views(vs: Seq<String>) -> Seq<Seq<char>> {
    vs.map_values(|v: String| v@)
}

/// Matches chunks against a path from its start. A literal chunk must be the next part
/// of the path; a variable takes the path up to (not including) the next `/` and is
/// captured. Only the start of the path is matched: whatever remains of the path after
/// the last chunk is ignored.
pub open spec fn match_chunks(chunks: Seq<Chunk>, path: Seq<char>) -> Option<Seq<Seq<char>>>
    decreases chunks.len(),
{
    if chunks.len() == 0 {
        Some(seq![])
    } else {
        match chunks[0] {
            Chunk::Path(lit) => {
                if lit.len() <= path.len() && path.take(lit.len() as int) == lit {
                    match_chunks(chunks.drop_first(), path.skip(lit.len() as int))
                } else {
                    None
                }
            },
            Chunk::Var => {
                let j = index_of(path, '/');
                match match_chunks(chunks.drop_first(), path.skip(j)) {
                    Some(vs) => Some(seq![path.take(j)] + vs),
                    None => None,
                }
            },
        }
    }
}

/// What matching the route pattern `pattern` against `path` gives: the captured
/// variables in order, or `None` when the path does not match.
pub open spec fn match_pattern(pattern: Seq<char>, path: Seq<char>) -> Option<Seq<Seq<char>>> {
    match_chunks(chunks_of(pattern), path)
}

/// `captured` followed by the captures of `rest`, when `rest` matched.
pub open spec fn prepend_captures(
    captured: Seq<Seq<char>>,
    rest: Option<Seq<Seq<char>>>,
) -> Option<Seq<Seq<char>>> {
    match rest {
        Some(vs) => Some(captured + vs),
        None => None,
    }
}

/// Runs `match_chunks` on concrete chunks and a concrete path.
pub(crate) fn match_chunks_exec(chunks: &Vec<PathOrVar>, path: &Vec<char>) -> (res: Option<Vec<String>>)
    ensures
        match res {
            Some(vs) => match_chunks(chunk_views(chunks@), path@) == Some(string_views(vs@)),
            None => match_chunks(chunk_views(chunks@), path@) is None,
        },
{
    let ghost views = chunk_views(chunks@);
    let mut vars: Vec<String> = Vec::new();
    let mut pos: usize = 0;
    let mut i: usize = 0;
    assert(views.skip(0) == views);
    assert(path@.skip(0) == path@);
    assert(string_views(vars@) + Seq::<Seq<char>>::empty() == Seq::<Seq<char>>::empty());
    while i < chunks.len()
        invariant
            views == chunk_views(chunks@),
            0 <= i <= chunks@.len(),
            pos <= path@.len(),
            match_chunks(views, path@) == prepend_captures(
                string_views(vars@),
                match_chunks(views.skip(i as int), path@.skip(pos as int)),
            ),
        decreases chunks@.len() - i,
    {
        let ghost rest_chunks = views.skip(i as int);
        let ghost rest_path = path@.skip(pos as int);
        assert(rest_chunks[0] == chunks@[i as int]@);
        assert(rest_chunks.drop_first() == views.skip(i + 1));
        match &chunks[i] {
            PathOrVar::Path(lit) => {
                let lit_chars = chars_of(lit.as_str());
                if !has_prefix_at(path, pos, &lit_chars) {
                    assert(!(lit@.len() <= rest_path.len() && rest_path.take(lit@.len() as int) == lit@)) by {
                        if lit@.len() <= rest_path.len() {
                            assert(rest_path.take(lit@.len() as int) == path@.subrange(
                                pos as int,
                                pos + lit@.len(),
                            ));
                        }
                    }
                    return None;
                }
                assert(rest_path.take(lit@.len() as int) == path@.subrange(pos as int, pos + lit@.len()));
                assert(rest_path.skip(lit@.len() as int) == path@.skip(pos + lit@.len()));
                assert(pos + lit_chars@.len() <= path@.len());
                assert(path@.len() == path.len());
                pos = pos + lit_chars.len();
            },
            PathOrVar::Var => {
                let end = find_char(path, pos, '/');
                let value = string_of_range(path, pos, end);
                let ghost old_vars = string_views(vars@);
                vars.push(value);
                proof {
                    let j = index_of(rest_path, '/');
                    assert(rest_path.take(j) == path@.subrange(pos as int, end as int));
                    assert(rest_path.skip(j) == path@.skip(end as int));
                    assert(string_views(vars@) == old_vars + seq![rest_path.take(j)]);
                    match match_chunks(views.skip(i + 1), path@.skip(end as int)) {
                        Some(vs) => {
                            assert(old_vars + (seq![rest_path.take(j)] + vs) == string_views(
                                vars@,
                            ) + vs);
                        },
                        None => {},
                    }
                }
                pos = end;
            },
        }
        i = i + 1;
    }
    proof {
        assert(views.skip(i as int).len() == 0);
        assert(string_views(vars@) + Seq::<Seq<char>>::empty() == string_views(vars@));
    }
    Some(vars)
}


impl<H, B, S> Connection<H, B, S> {
    /// Whether the request was made with `method`.
    pub fn match_method(&self, method: Method) -> (res: bool)
        ensures
            res == (self@.method == method@),
    {
        same_text(self.method.as_str(), method.as_str())
    }

    /// Matches the route pattern `path` against the request path: the values of the
    /// pattern's variables, in order, or `None` when the path does not match. Every chunk
    /// of the pattern is matched in turn from the start of the request path; what follows
    /// the last chunk is ignored.
    pub fn match_path(&self, path: &str) -> (res: Option<Vec<String>>)
        ensures
            match res {
                Some(vars) => match_pattern(path@, self@.path) == Some(string_views(vars@)),
                None => match_pattern(path@, self@.path) is None,
            },
    {
        let chunks = parse_path(path.to_owned());
        let conn_path = chars_of(self.path.as_str());
        match_chunks_exec(&chunks, &conn_path)
    }
}


/// The number of variables among the chunks.
pub open spec fn var_count(chunks: Seq<Chunk>) -> nat
    decreases chunks.len(),
{
    if chunks.len() == 0 {
        0
    } else {
        (if chunks[0] is Var { 1nat } else { 0nat }) + var_count(chunks.drop_first())
    }
}

/// The path that the chunks spell when the variables take the values `vals`, in order.
pub open spec fn fill(chunks: Seq<Chunk>, vals: Seq<Seq<char>>) -> Seq<char>
    decreases chunks.len(),
{
    if chunks.len() == 0 {
        Seq::empty()
    } else {
        match chunks[0] {
            Chunk::Path(lit) => lit + fill(chunks.drop_first(), vals),
            Chunk::Var => vals[0] + fill(chunks.drop_first(), vals.drop_first()),
        }
    }
}

/// A value a variable can take: it holds no `/`.
pub open spec fn segment(v: Seq<char>) -> bool {
    !v.contains('/')
}

/// What may follow a path matched by the chunks without changing the last capture:
/// nothing, or text that starts with `/`, when the last chunk is a variable; anything
/// otherwise.
pub open spec fn continues(chunks: Seq<Chunk>, rest: Seq<char>) -> bool {
    (chunks.len() > 0 && chunks.last() is Var) ==> (rest.len() == 0 || rest[0] == '/')
}

/// Every variable is directly followed by a literal that starts with `/`, or ends the
/// chunks.
pub open spec fn vars_end_at_slash(chunks: Seq<Chunk>) -> bool {
    forall|i: int|
        0 <= i < chunks.len() - 1 && #[trigger] chunks[i] is Var ==> match chunks[i + 1] {
            Chunk::Path(lit) => lit.len() > 0 && lit[0] == '/',
            Chunk::Var => false,
        }
}

/// Every variable of a pattern is followed by a literal chunk that starts with `/`, or
/// is the last chunk.
pub proof fn law_chunks_shape(p: Seq<char>)
    ensures
        vars_end_at_slash(chunks_of(p)),
    decreases p.len(),
{
    let i = index_of(p, ':');
    lemma_index_of(p, ':');
    if i < p.len() {
        let rest = p.skip(i + 1);
        let j = index_of(rest, '/');
        lemma_index_of(rest, '/');
        let tail = rest.skip(j);
        law_chunks_shape(tail);
        let c = chunks_of(p);
        let t = chunks_of(tail);
        assert(c == seq![Chunk::Path(p.take(i)), Chunk::Var] + t);
        if t.len() > 0 {
            // the tail is not empty, so it starts with the `/` that ended the variable
            lemma_index_of(tail, ':');
            assert(tail.len() > 0);
            assert(tail[0] == '/');
            assert(index_of(tail, ':') > 0);
            let i2 = index_of(tail, ':');
            if i2 < tail.len() {
                let rest2 = tail.skip(i2 + 1);
                lemma_index_of(rest2, '/');
            } else {
                assert(tail.take(i2) == tail);
            }
            assert(t[0] == Chunk::Path(tail.take(i2)));
            assert(tail.take(i2)[0] == '/');
        }
        assert forall|k: int| 0 <= k < c.len() - 1 && #[trigger] c[k] is Var implies match c[k + 1] {
            Chunk::Path(lit) => lit.len() > 0 && lit[0] == '/',
            Chunk::Var => false,
        } by {
            if k >= 2 {
                assert(c[k] == t[k - 2]);
                assert(c[k + 1] == t[k - 1]);
            }
        }
    }
}

/// Matching the chunks against their own filling, followed by what `continues` allows,
/// gives back the values.
proof fn lemma_match_fill(chunks: Seq<Chunk>, vals: Seq<Seq<char>>, rest: Seq<char>)
    requires
        vars_end_at_slash(chunks),
        vals.len() == var_count(chunks),
        forall|k: int| 0 <= k < vals.len() ==> segment(#[trigger] vals[k]),
        continues(chunks, rest),
    ensures
        match_chunks(chunks, fill(chunks, vals) + rest) == Some(vals),
    decreases chunks.len(),
{
    if chunks.len() == 0 {
        assert(vals =~= Seq::<Seq<char>>::empty());
    } else {
        let tail = chunks.drop_first();
        assert(vars_end_at_slash(tail)) by {
            assert forall|i: int| 0 <= i < tail.len() - 1 && #[trigger] tail[i] is Var implies match tail[i + 1] {
                Chunk::Path(lit) => lit.len() > 0 && lit[0] == '/',
                Chunk::Var => false,
            } by {
                assert(tail[i] == chunks[i + 1]);
                assert(tail[i + 1] == chunks[i + 2]);
            }
        }
        match chunks[0] {
            Chunk::Path(lit) => {
                lemma_match_fill(tail, vals, rest);
                let path = fill(chunks, vals) + rest;
                assert(path == lit + (fill(tail, vals) + rest));
                assert(path.take(lit.len() as int) == lit);
                assert(path.skip(lit.len() as int) == fill(tail, vals) + rest);
            },
            Chunk::Var => {
                let v = vals[0];
                let vs = vals.drop_first();
                assert forall|k: int| 0 <= k < vs.len() implies segment(#[trigger] vs[k]) by {
                    assert(vs[k] == vals[k + 1]);
                }
                lemma_match_fill(tail, vs, rest);
                let after = fill(tail, vs) + rest;
                let path = fill(chunks, vals) + rest;
                assert(path == v + after);
                assert(segment(vals[0]));
                if tail.len() > 0 {
                    assert(chunks[0] is Var);
                    match tail[0] {
                        Chunk::Path(lit) => {
                            assert(chunks[1] == tail[0]);
                            assert(after[0] == lit[0]);
                        },
                        Chunk::Var => {
                            assert(chunks[1] == tail[0]);
                        },
                    }
                }
                lemma_index_of_concat_stop(v, after, '/');
                assert(path.take(v.len() as int) == v);
                assert(path.skip(v.len() as int) == after);
                assert(seq![v] + vs == vals);
            },
        }
    }
}

/// A path spelt from a pattern, with slash-free values for its variables and followed by
/// nothing or by a `/`-led rest, matches the pattern and gives back those values.
pub proof fn law_match_gives_back_values(pattern: Seq<char>, vals: Seq<Seq<char>>, rest: Seq<char>)
    requires
        vals.len() == var_count(chunks_of(pattern)),
        forall|k: int| 0 <= k < vals.len() ==> segment(#[trigger] vals[k]),
        continues(chunks_of(pattern), rest),
    ensures
        match_pattern(pattern, fill(chunks_of(pattern), vals) + rest) == Some(vals),
{
    law_chunks_shape(pattern);
    lemma_match_fill(chunks_of(pattern), vals, rest);
}

/// Chunk-level form of the prefix law.
proof fn lemma_match_extend(chunks: Seq<Chunk>, path: Seq<char>, more: Seq<char>)
    requires
        match_chunks(chunks, path) is Some,
        more.len() == 0 || more[0] == '/',
    ensures
        match_chunks(chunks, path + more) == match_chunks(chunks, path),
    decreases chunks.len(),
{
    if chunks.len() > 0 {
        let tail = chunks.drop_first();
        match chunks[0] {
            Chunk::Path(lit) => {
                let n = lit.len() as int;
                assert((path + more).take(n) == path.take(n));
                assert((path + more).skip(n) == path.skip(n) + more);
                lemma_match_extend(tail, path.skip(n), more);
            },
            Chunk::Var => {
                lemma_index_of(path, '/');
                let j = index_of(path, '/');
                if j < path.len() {
                    lemma_index_of_concat_found(path, more, '/');
                } else {
                    assert(!path.contains('/')) by {
                        if path.contains('/') {
                            let k = choose|k: int| 0 <= k < path.len() && path[k] == '/';
                            assert(path[k] != '/');
                        }
                    }
                    lemma_index_of_concat_stop(path, more, '/');
                }
                assert((path + more).take(j) == path.take(j));
                assert((path + more).skip(j) == path.skip(j) + more);
                lemma_match_extend(tail, path.skip(j), more);
            },
        }
    }
}

/// Only the start of a path is matched: a path that matches still matches, with the same
/// captures, when more `/`-led text is appended to it.
pub proof fn law_match_ignores_trailing_segments(pattern: Seq<char>, path: Seq<char>, more: Seq<char>)
    requires
        match_pattern(pattern, path) is Some,
        more.len() == 0 || more[0] == '/',
    ensures
        match_pattern(pattern, path + more) == match_pattern(pattern, path),
{
    lemma_match_extend(chunks_of(pattern), path, more);
}

/// Chunk-level form of the capture-shape law.
proof fn lemma_captures_shape(chunks: Seq<Chunk>, path: Seq<char>)
    requires
        match_chunks(chunks, path) is Some,
    ensures
        match_chunks(chunks, path).unwrap().len() == var_count(chunks),
        forall|k: int|
            0 <= k < match_chunks(chunks, path).unwrap().len() ==> segment(
                #[trigger] match_chunks(chunks, path).unwrap()[k],
            ),
    decreases chunks.len(),
{
    if chunks.len() > 0 {
        let tail = chunks.drop_first();
        match chunks[0] {
            Chunk::Path(lit) => {
                lemma_captures_shape(tail, path.skip(lit.len() as int));
            },
            Chunk::Var => {
                let j = index_of(path, '/');
                lemma_index_of(path, '/');
                lemma_captures_shape(tail, path.skip(j));
                let v = path.take(j);
                let vs = match_chunks(tail, path.skip(j)).unwrap();
                let all = match_chunks(chunks, path).unwrap();
                assert(all == seq![v] + vs);
                assert(segment(v)) by {
                    if v.contains('/') {
                        let k = choose|k: int| 0 <= k < v.len() && v[k] == '/';
                        assert(path[k] == '/');
                    }
                }
                assert forall|k: int| 0 <= k < all.len() implies segment(#[trigger] all[k]) by {
                    if k > 0 {
                        assert(all[k] == vs[k - 1]);
                    }
                }
            },
        }
    }
}

/// A successful match captures one value per variable of the pattern, and no value
/// holds a `/`.
pub proof fn law_captures_are_segments(pattern: Seq<char>, path: Seq<char>)
    requires
        match_pattern(pattern, path) is Some,
    ensures
        match_pattern(pattern, path).unwrap().len() == var_count(chunks_of(pattern)),
        forall|k: int|
            0 <= k < match_pattern(pattern, path).unwrap().len() ==> segment(
                #[trigger] match_pattern(pattern, path).unwrap()[k],
            ),
{
    lemma_captures_shape(chunks_of(pattern), path);
}


/// Whether `path` starts with `prefix`.
pub open spec fn starts_with(path: Seq<char>, prefix: Seq<char>) -> bool {
    prefix.len() <= path.len() && path.take(prefix.len() as int) == prefix
}

/// A pattern without `:` matches exactly the paths that start with it, and captures
/// nothing.
pub proof fn law_pattern_without_variables_matches_its_prefixes(pattern: Seq<char>, path: Seq<char>)
    requires
        !pattern.contains(':'),
    ensures
        match_pattern(pattern, path) == (if starts_with(path, pattern) {
            Some(Seq::<Seq<char>>::empty())
        } else {
            None
        }),
{
    lemma_index_of(pattern, ':');
    if index_of(pattern, ':') < pattern.len() {
        assert(pattern.contains(':'));
    }
    if pattern.len() == 0 {
        assert(path.take(0) =~= pattern);
    } else {
        let c = chunks_of(pattern);
        assert(c == seq![Chunk::Path(pattern)]);
        assert(c.drop_first() =~= Seq::<Chunk>::empty());
        let n = pattern.len() as int;
        assert(match_chunks(c.drop_first(), path.skip(n)) == Some(Seq::<Seq<char>>::empty()));
        if starts_with(path, pattern) {
            assert(match_chunks(c, path) == match_chunks(c.drop_first(), path.skip(n)));
        } else {
            assert(match_chunks(c, path) is None);
        }
    }
}

/// The pattern with every variable name left out (each variable becomes a bare `:`).
pub open spec fn erase_names(p: Seq<char>) -> Seq<char>
    decreases p.len(),
{
    let i = index_of(p, ':');
    if 0 <= i < p.len() {
        let rest = p.skip(i + 1);
        let j = index_of(rest, '/');
        if 0 <= j <= rest.len() {
            p.take(i + 1) + erase_names(rest.skip(j))
        } else {
            p
        }
    } else {
        p
    }
}

/// Leaving out the names keeps the first character of a pattern that does not start a
/// variable, and the empty pattern empty.
proof fn lemma_erase_names_first(q: Seq<char>)
    ensures
        q.len() == 0 ==> erase_names(q).len() == 0,
        q.len() > 0 && q[0] != ':' ==> erase_names(q).len() > 0 && erase_names(q)[0] == q[0],
{
    lemma_index_of(q, ':');
    if q.len() > 0 && q[0] != ':' {
        let i = index_of(q, ':');
        if i < q.len() {
            assert(i > 0);
            let rest = q.skip(i + 1);
            lemma_index_of(rest, '/');
            assert(q.take(i + 1)[0] == q[0]);
        }
    }
}

/// A pattern and the pattern with its names left out have the same chunks.
proof fn lemma_chunks_of_erase_names(p: Seq<char>)
    ensures
        chunks_of(erase_names(p)) == chunks_of(p),
    decreases p.len(),
{
    let i = index_of(p, ':');
    lemma_index_of(p, ':');
    if i < p.len() {
        let rest = p.skip(i + 1);
        let j = index_of(rest, '/');
        lemma_index_of(rest, '/');
        let tail = rest.skip(j);
        lemma_chunks_of_erase_names(tail);
        lemma_erase_names_first(tail);
        let et = erase_names(tail);
        let e = p.take(i + 1) + et;
        assert(e == erase_names(p));
        assert forall|k: int| 0 <= k < i implies e[k] != ':' by {
            assert(e[k] == p[k]);
        }
        assert(e[i] == ':');
        lemma_index_of_unique(e, ':', i);
        assert(e.take(i) == p.take(i));
        assert(e.skip(i + 1) == et);
        if et.len() > 0 {
            assert(tail[0] == '/');
            assert(et[0] == '/');
            lemma_index_of_unique(et, '/', 0);
        } else {
            lemma_index_of_unique(et, '/', 0);
        }
        assert(et.skip(0) == et);
    }
}

/// Variable names do not matter: two patterns that differ only in the names of their
/// variables match the same paths with the same captures.
pub proof fn law_variable_names_do_not_matter(p1: Seq<char>, p2: Seq<char>, path: Seq<char>)
    requires
        erase_names(p1) == erase_names(p2),
    ensures
        match_pattern(p1, path) == match_pattern(p2, path),
{
    lemma_chunks_of_erase_names(p1);
    lemma_chunks_of_erase_names(p2);
}


/// The variable markers of a pattern as they are written: each `:` with the name after it,
/// up to (not including) the next `/`, in order.
pub open spec fn var_texts(p: Seq<char>) -> Seq<Seq<char>>
    decreases p.len(),
{
    let i = index_of(p, ':');
    if 0 <= i < p.len() {
        let rest = p.skip(i + 1);
        let j = index_of(rest, '/');
        if 0 <= j <= rest.len() {
            seq![p.subrange(i, i + 1 + j)] + var_texts(rest.skip(j))
        } else {
            seq![]
        }
    } else {
        seq![]
    }
}

/// The facts of `law_chunks_spell_the_pattern`.
pub open spec fn chunks_spell(p: Seq<char>, c: Seq<Chunk>, vs: Seq<Seq<char>>) -> bool {
    &&& fill(c, vs) == p
    &&& vs.len() == var_count(c)
    &&& forall|k: int| 0 <= k < vs.len() ==> #[trigger] vs[k].len() > 0 && vs[k][0] == ':'
        && segment(vs[k])
    &&& forall|k: int| 0 <= k < c.len() ==> (#[trigger] c[k] matches Chunk::Path(lit) ==> !lit.contains(':'))
    &&& forall|k: int| 0 < k < c.len() ==> (#[trigger] c[k] is Path ==> c[k - 1] is Var)
    &&& forall|k: int| 0 < k < c.len() ==> (#[trigger] c[k] matches Chunk::Path(lit) ==> lit.len() > 0)
}

/// The chunks of a pattern spell the pattern: its literal chunks are exactly the text
/// between the variables, taken whole. Writing each variable back as it is written in the
/// pattern (`:` and its name) between the literal chunks gives back the pattern. No literal
/// holds a `:`, a variable's text holds no `/`, two literals never follow each other, and
/// only the first literal may be empty.
pub proof fn law_chunks_spell_the_pattern(p: Seq<char>)
    ensures
        chunks_spell(p, chunks_of(p), var_texts(p)),
    decreases p.len(),
{
    let i = index_of(p, ':');
    lemma_index_of(p, ':');
    let c = chunks_of(p);
    let vs = var_texts(p);
    if i < p.len() {
        let rest = p.skip(i + 1);
        let j = index_of(rest, '/');
        lemma_index_of(rest, '/');
        let tail = rest.skip(j);
        law_chunks_spell_the_pattern(tail);
        law_chunks_shape(p);
        let t = chunks_of(tail);
        let tv = var_texts(tail);
        let lit = p.take(i);
        let v = p.subrange(i, i + 1 + j);
        assert(c == seq![Chunk::Path(lit), Chunk::Var] + t);
        assert(vs == seq![v] + tv);
        // spelling
        assert(c.drop_first() == seq![Chunk::Var] + t);
        assert((seq![Chunk::Var] + t).drop_first() == t);
        assert(vs.drop_first() == tv);
        assert(fill(c, vs) == lit + fill(c.drop_first(), vs));
        assert(fill(c.drop_first(), vs) == v + fill(t, tv));
        assert(lit + (v + tail) =~= p);
        // counts
        assert(var_count(c) == var_count(c.drop_first()));
        assert(var_count(c.drop_first()) == 1 + var_count(t));
        // the variable's text
        assert(v[0] == ':');
        assert(segment(v)) by {
            if v.contains('/') {
                let k = choose|k: int| 0 <= k < v.len() && v[k] == '/';
                assert(k > 0);
                assert(rest[k - 1] == '/');
            }
        }
        assert forall|k: int| 0 <= k < vs.len() implies #[trigger] vs[k].len() > 0 && vs[k][0] == ':'
            && segment(vs[k]) by {
            if k > 0 {
                assert(vs[k] == tv[k - 1]);
            }
        }
        // literals
        assert(!lit.contains(':')) by {
            if lit.contains(':') {
                let k = choose|k: int| 0 <= k < lit.len() && lit[k] == ':';
                assert(p[k] == ':');
            }
        }
        assert forall|k: int| 0 <= k < c.len() implies (#[trigger] c[k] matches Chunk::Path(l) ==> !l.contains(':')) by {
            if k >= 2 {
                assert(c[k] == t[k - 2]);
            }
        }
        assert forall|k: int| 0 < k < c.len() implies (#[trigger] c[k] is Path ==> c[k - 1] is Var) by {
            if k >= 3 {
                assert(c[k] == t[k - 2]);
                assert(c[k - 1] == t[k - 3]);
            }
        }
        assert forall|k: int| 0 < k < c.len() implies (#[trigger] c[k] matches Chunk::Path(l) ==> l.len() > 0) by {
            if k == 2 {
                assert(c[1] is Var);
            } else if k >= 3 {
                assert(c[k] == t[k - 2]);
            }
        }
    } else if p.len() > 0 {
        assert(c == seq![Chunk::Path(p)]);
        assert(vs == Seq::<Seq<char>>::empty());
        assert(c.drop_first() =~= Seq::<Chunk>::empty());
        assert(fill(c, vs) == p + fill(c.drop_first(), vs));
        assert(p + Seq::<char>::empty() == p);
        assert(var_count(c) == var_count(c.drop_first()));
        assert(!p.contains(':')) by {
            if p.contains(':') {
                let k = choose|k: int| 0 <= k < p.len() && p[k] == ':';
                assert(p[k] == ':');
            }
        }
    } else {
        assert(c.len() == 0);
        assert(p =~= Seq::<char>::empty());
    }
}

}

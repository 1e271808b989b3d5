//! The grammar of the path literal given to the routing macro, such as
//! `"/user/:id/comments/:comment_id"`: the literal is read as Rust tokens, must start
//! with `/`, and may then hold `/`, identifiers, and `:` marks; an identifier right
//! after a `:` names a variable.

use vstd::prelude::*;

use crate::connection::routing::string_views;
use crate::text::same_text;

verus! {

/// A Rust token, as far as the path grammar tells tokens apart.
#[derive(Debug)]
pub enum PathToken {
    Punct(char),
    Ident(String),
    Literal,
    Group,
}

/// The value of a `PathToken`.
pub enum TokenView {
    Punct(char),
    Ident(Seq<char>),
    Literal,
    Group,
}

impl View for PathToken {
    type V = TokenView;

    open spec fn view(&self) -> TokenView {
        match self {
            PathToken::Punct(c) => TokenView::Punct(*c),
            PathToken::Ident(s) => TokenView::Ident(s@),
            PathToken::Literal => TokenView::Literal,
            PathToken::Group => TokenView::Group,
        }
    }
}

/// The views of a sequence of tokens.
pub open spec fn token_views(ts: Seq<PathToken>) -> Seq<TokenView> {
    ts.map_values(|t: PathToken| t@)
}

/// Why a path literal is not a valid route path.
#[derive(Debug, PartialEq, Eq, Structural)]
pub enum RoutePathError {
    /// The text is not a sequence of Rust tokens.
    Lex,
    /// The path does not start with `/`.
    ExpectedSlash,
    /// A token that is neither `/`, `:` nor an identifier.
    InvalidPath,
}

/// A character that may start an ASCII identifier word.
pub open spec fn is_word_start(c: char) -> bool {
    ('a' <= c <= 'z') || ('A' <= c <= 'Z') || c == '_'
}

/// A character that may continue an ASCII identifier word.
pub open spec fn is_word_char(c: char) -> bool {
    is_word_start(c) || ('0' <= c <= '9')
}

/// A text made only of `/`, `:` and ASCII identifier words: every other character is a
/// letter, a digit or `_`, a digit never starts a word, and no `/` follows a `/` (which
/// would start a comment).
pub open spec fn is_simple_path_text(s: Seq<char>) -> bool {
    &&& forall|i: int| 0 <= i < s.len() ==> (#[trigger] s[i] == '/' || s[i] == ':' || is_word_char(s[i]))
    &&& forall|i: int| 0 <= i < s.len() && '0' <= #[trigger] s[i] <= '9' ==> (i > 0 && is_word_char(s[i - 1]))
    &&& forall|i: int| 0 <= i < s.len() - 1 && #[trigger] s[i] == '/' ==> s[i + 1] != '/'
}

/// The length of the run of word characters at the start of `s`.
pub open spec fn word_len(s: Seq<char>) -> nat
    decreases s.len(),
{
    if s.len() > 0 && is_word_char(s[0]) {
        1 + word_len(s.drop_first())
    } else {
        0
    }
}

/// The tokens of a simple path text: each `/` and `:` is a punctuation token and each run
/// of word characters is an identifier.
pub open spec fn simple_tokens(s: Seq<char>) -> Seq<TokenView>
    decreases s.len(),
{
    if s.len() == 0 {
        seq![]
    } else if !is_word_char(s[0]) {
        seq![TokenView::Punct(s[0])] + simple_tokens(s.drop_first())
    } else {
        let n = word_len(s);
        if 0 < n <= s.len() {
            seq![TokenView::Ident(s.take(n as int))] + simple_tokens(s.skip(n as int))
        } else {
            seq![]
        }
    }
}

/// Reads `text` as Rust tokens with `proc_macro2::TokenStream`'s `FromStr`, telling each
/// top-level token tree apart by its kind (a punctuation character, an identifier with
/// its text, a literal, or a delimited group); `None` when the text cannot be read.
/// `proc_macro2` lexes with the compiler's lexer inside a procedural macro and with its
/// own lexer elsewhere, and the two can read the same text differently, so only what both
/// do is stated: a text made of `/`, `:` and ASCII identifier words (no `//`) reads as
/// those tokens. Nothing is stated of other texts.
#[verifier::external_body]
fn lex(text: &str) -> (res: Option<Vec<PathToken>>)
    ensures
        is_simple_path_text(text@) ==> res is Some,
        is_simple_path_text(text@) ==> token_views(res.unwrap()@) == simple_tokens(text@),
{
    let stream: proc_macro2::TokenStream = text.parse().ok()?;
    Some(stream.into_iter().map(|tree| match tree {
        proc_macro2::TokenTree::Punct(p) => PathToken::Punct(p.as_char()),
        proc_macro2::TokenTree::Ident(i) => PathToken::Ident(i.to_string()),
        proc_macro2::TokenTree::Literal(_) => PathToken::Literal,
        proc_macro2::TokenTree::Group(_) => PathToken::Group,
    }).collect())
}

/// The words that are not accepted as identifiers (keywords and `_`): the list of syn's
/// `accept_as_ident`, which decides `syn::Ident`'s `Parse` and `peek` on an identifier
/// token.
pub open spec fn is_reserved(word: Seq<char>) -> bool {
    ||| word == "_"@ ||| word == "abstract"@ ||| word == "as"@ ||| word == "async"@
    ||| word == "await"@ ||| word == "become"@ ||| word == "box"@ ||| word == "break"@
    ||| word == "const"@ ||| word == "continue"@ ||| word == "crate"@ ||| word == "do"@
    ||| word == "dyn"@ ||| word == "else"@ ||| word == "enum"@ ||| word == "extern"@
    ||| word == "false"@ ||| word == "final"@ ||| word == "fn"@ ||| word == "for"@
    ||| word == "if"@ ||| word == "impl"@ ||| word == "in"@ ||| word == "let"@
    ||| word == "loop"@ ||| word == "macro"@ ||| word == "match"@ ||| word == "mod"@
    ||| word == "move"@ ||| word == "mut"@ ||| word == "override"@ ||| word == "priv"@
    ||| word == "pub"@ ||| word == "ref"@ ||| word == "return"@ ||| word == "Self"@
    ||| word == "self"@ ||| word == "static"@ ||| word == "struct"@ ||| word == "super"@
    ||| word == "trait"@ ||| word == "true"@ ||| word == "try"@ ||| word == "type"@
    ||| word == "typeof"@ ||| word == "unsafe"@ ||| word == "unsized"@ ||| word == "use"@
    ||| word == "virtual"@ ||| word == "where"@ ||| word == "while"@ ||| word == "yield"@
}

/// Whether `word` is reserved.
pub fn reserved(word: &str) -> (res: bool)
    ensures
        res == is_reserved(word@),
{
    let words: [&str; 52] = [
        "_", "abstract", "as", "async", "await", "become", "box", "break", "const", "continue",
        "crate", "do", "dyn", "else", "enum", "extern", "false", "final", "fn", "for", "if",
        "impl", "in", "let", "loop", "macro", "match", "mod", "move", "mut", "override", "priv",
        "pub", "ref", "return", "Self", "self", "static", "struct", "super", "trait", "true",
        "try", "type", "typeof", "unsafe", "unsized", "use", "virtual", "where", "while", "yield",
    ];
    let ghost listed = seq![
        "_"@, "abstract"@, "as"@, "async"@, "await"@, "become"@, "box"@, "break"@, "const"@,
        "continue"@, "crate"@, "do"@, "dyn"@, "else"@, "enum"@, "extern"@, "false"@, "final"@,
        "fn"@, "for"@, "if"@, "impl"@, "in"@, "let"@, "loop"@, "macro"@, "match"@, "mod"@,
        "move"@, "mut"@, "override"@, "priv"@, "pub"@, "ref"@, "return"@, "Self"@, "self"@,
        "static"@, "struct"@, "super"@, "trait"@, "true"@, "try"@, "type"@, "typeof"@,
        "unsafe"@, "unsized"@, "use"@, "virtual"@, "where"@, "while"@, "yield"@,
    ];
    assert(forall|k: int| 0 <= k < 52 ==> #[trigger] words@[k]@ == listed[k]);
    assert(is_reserved(word@) <==> listed.contains(word@)) by {
        if is_reserved(word@) {
            assert(exists|k: int| 0 <= k < 52 && listed[k] == word@);
        }
    }
    let mut i: usize = 0;
    while i < 52
        invariant
            0 <= i <= 52,
            listed.len() == 52,
            is_reserved(word@) <==> listed.contains(word@),
            forall|k: int| 0 <= k < 52 ==> #[trigger] words@[k]@ == listed[k],
            forall|k: int| 0 <= k < i ==> listed[k] != word@,
        decreases 52 - i,
    {
        if same_text(word, words[i]) {
            assert(listed[i as int] == word@);
            assert(listed.contains(word@));
            return true;
        }
        i = i + 1;
    }
    assert(!listed.contains(word@));
    false
}


/// Whether the token is an identifier that is not reserved.
pub open spec fn is_name(t: TokenView) -> bool {
    t matches TokenView::Ident(w) && !is_reserved(w)
}

/// The text of an identifier token.
pub open spec fn name_of(t: TokenView) -> Seq<char> {
    match t {
        TokenView::Ident(w) => w,
        _ => Seq::empty(),
    }
}

/// `names` followed by the names read from the rest, when the rest is valid.
pub open spec fn prepend_names(
    names: Seq<Seq<char>>,
    rest: Result<Seq<Seq<char>>, RoutePathError>,
) -> Result<Seq<Seq<char>>, RoutePathError> {
    match rest {
        Ok(vs) => Ok(names + vs),
        Err(e) => Err(e),
    }
}

/// Reads the tokens after the leading `/`: `/` and identifiers are skipped, a `:` followed
/// by an identifier names a variable (a `:` followed by anything else is skipped), and any
/// other token makes the path invalid.
pub open spec fn scan_path(ts: Seq<TokenView>) -> Result<Seq<Seq<char>>, RoutePathError>
    decreases ts.len(),
{
    if ts.len() == 0 {
        Ok(seq![])
    } else if ts[0] == TokenView::Punct('/') {
        scan_path(ts.drop_first())
    } else if ts[0] == TokenView::Punct(':') {
        if ts.len() > 1 && is_name(ts[1]) {
            prepend_names(seq![name_of(ts[1])], scan_path(ts.skip(2)))
        } else {
            scan_path(ts.drop_first())
        }
    } else if is_name(ts[0]) {
        scan_path(ts.drop_first())
    } else {
        Err(RoutePathError::InvalidPath)
    }
}

/// The variable names of a route path given as tokens: it must start with `/`.
pub open spec fn route_vars(ts: Seq<TokenView>) -> Result<Seq<Seq<char>>, RoutePathError> {
    if ts.len() > 0 && ts[0] == TokenView::Punct('/') {
        scan_path(ts.drop_first())
    } else {
        Err(RoutePathError::ExpectedSlash)
    }
}

/// The variable names of a route path given as tokens.
pub fn parse_route_tokens(tokens: &Vec<PathToken>) -> (res: Result<Vec<String>, RoutePathError>)
    ensures
        match res {
            Ok(names) => route_vars(token_views(tokens@)) == Ok::<Seq<Seq<char>>, RoutePathError>(string_views(names@)),
            Err(e) => route_vars(token_views(tokens@)) == Err::<Seq<Seq<char>>, RoutePathError>(e),
        },
{
    let ghost ts = token_views(tokens@);
    let n = tokens.len();
    let starts_with_slash = n > 0 && match &tokens[0] {
        PathToken::Punct(c) => *c == '/',
        _ => false,
    };
    if !starts_with_slash {
        return Err(RoutePathError::ExpectedSlash);
    }
    let mut names: Vec<String> = Vec::new();
    let mut i: usize = 1;
    assert(ts.skip(1) == ts.drop_first());
    assert(string_views(names@) + Seq::<Seq<char>>::empty() == Seq::<Seq<char>>::empty());
    while i < n
        invariant
            ts == token_views(tokens@),
            n == tokens@.len(),
            1 <= i <= n,
            route_vars(ts) == prepend_names(string_views(names@), scan_path(ts.skip(i as int))),
        decreases n - i,
    {
        let ghost rest = ts.skip(i as int);
        assert(rest[0] == tokens@[i as int]@);
        assert(rest.drop_first() == ts.skip(i + 1));
        match &tokens[i] {
            PathToken::Punct(c) => {
                if *c == '/' {
                    i = i + 1;
                } else if *c == ':' {
                    let mut took = false;
                    if i + 1 < n {
                        assert(rest[1] == tokens@[i + 1]@);
                        match &tokens[i + 1] {
                            PathToken::Ident(w) => {
                                if !reserved(w.as_str()) {
                                    let ghost old_names = string_views(names@);
                                    names.push(w.clone());
                                    proof {
                                        assert(rest.skip(2) == ts.skip(i + 2));
                                        assert(string_views(names@) == old_names + seq![w@]);
                                        match scan_path(ts.skip(i + 2)) {
                                            Ok(vs) => {
                                                assert(old_names + (seq![w@] + vs) == string_views(names@) + vs);
                                            },
                                            Err(_) => {},
                                        }
                                    }
                                    took = true;
                                }
                            },
                            _ => {},
                        }
                    }
                    if took {
                        i = i + 2;
                    } else {
                        i = i + 1;
                    }
                } else {
                    return Err(RoutePathError::InvalidPath);
                }
            },
            PathToken::Ident(w) => {
                if reserved(w.as_str()) {
                    return Err(RoutePathError::InvalidPath);
                }
                i = i + 1;
            },
            _ => {
                return Err(RoutePathError::InvalidPath);
            },
        }
    }
    proof {
        assert(ts.skip(i as int).len() == 0);
        assert(string_views(names@) + Seq::<Seq<char>>::empty() == string_views(names@));
    }
    Ok(names)
}

/// A route path read as tokens, and the variable names read from the tokens.
pub struct RoutePathVars {
    /// The tokens of the path, or `None` when it cannot be read as Rust tokens.
    pub tokens: Option<Vec<PathToken>>,
    /// The variable names, or why the path is not valid.
    pub vars: Result<Vec<String>, RoutePathError>,
}

/// The variable names of the route path written as `path`: what the routing macro binds.
/// The text is read as Rust tokens first; whatever tokens come back, the names are those
/// the grammar reads from them, and a text that cannot be read is a `Lex` error. A text
/// made of `/`, `:` and ASCII identifier words is read as exactly those tokens.
pub fn route_path_vars(path: &str) -> (res: RoutePathVars)
    ensures
        is_simple_path_text(path@) ==> (res.tokens matches Some(ts) && token_views(ts@)
            == simple_tokens(path@)),
        match res.tokens {
            None => res.vars == Err::<Vec<String>, RoutePathError>(RoutePathError::Lex),
            Some(ts) => match res.vars {
                Ok(names) => route_vars(token_views(ts@)) == Ok::<Seq<Seq<char>>, RoutePathError>(string_views(names@)),
                Err(e) => route_vars(token_views(ts@)) == Err::<Seq<Seq<char>>, RoutePathError>(e),
            },
        },
{
    match lex(path) {
        Some(tokens) => {
            let vars = parse_route_tokens(&tokens);
            RoutePathVars { tokens: Some(tokens), vars }
        },
        None => RoutePathVars { tokens: None, vars: Err(RoutePathError::Lex) },
    }
}

/// Chunk-level form of `law_route_names_are_not_reserved`.
proof fn lemma_scan_names(ts: Seq<TokenView>)
    ensures
        scan_path(ts) matches Ok(names) ==> forall|k: int|
            0 <= k < names.len() ==> !is_reserved(#[trigger] names[k]),
    decreases ts.len(),
{
    if ts.len() > 0 {
        lemma_scan_names(ts.drop_first());
        if ts.len() > 1 {
            lemma_scan_names(ts.skip(2));
        }
        if ts[0] == TokenView::Punct(':') && ts.len() > 1 && is_name(ts[1]) {
            if let Ok(vs) = scan_path(ts.skip(2)) {
                let all = seq![name_of(ts[1])] + vs;
                assert forall|k: int| 0 <= k < all.len() implies !is_reserved(#[trigger] all[k]) by {
                    if k > 0 {
                        assert(all[k] == vs[k - 1]);
                    }
                }
            }
        }
    }
}

/// The variables of a valid route path are named by identifiers, never by reserved words.
pub proof fn law_route_names_are_not_reserved(ts: Seq<TokenView>)
    ensures
        route_vars(ts) matches Ok(names) ==> forall|k: int|
            0 <= k < names.len() ==> !is_reserved(#[trigger] names[k]),
{
    if ts.len() > 0 {
        lemma_scan_names(ts.drop_first());
    }
}


/// A `:` and an identifier right after the leading `/` name the first variable, followed
/// by the variables the rest of the path names.
pub proof fn law_route_leading_variable(x: Seq<char>, ts: Seq<TokenView>)
    requires
        !is_reserved(x),
    ensures
        route_vars(seq![TokenView::Punct('/'), TokenView::Punct(':'), TokenView::Ident(x)] + ts)
            == prepend_names(seq![x], route_vars(seq![TokenView::Punct('/')] + ts)),
{
    let all = seq![TokenView::Punct('/'), TokenView::Punct(':'), TokenView::Ident(x)] + ts;
    let after = all.drop_first();
    assert(after == seq![TokenView::Punct(':'), TokenView::Ident(x)] + ts);
    assert(after.skip(2) == ts);
    assert(is_name(after[1]));
    assert((seq![TokenView::Punct('/')] + ts).drop_first() == ts);
}

/// Extra `/` tokens change nothing: a path and the same path with another `/` after the
/// leading one name the same variables, or fail alike.
pub proof fn law_route_slashes_are_transparent(ts: Seq<TokenView>)
    ensures
        route_vars(seq![TokenView::Punct('/'), TokenView::Punct('/')] + ts)
            == route_vars(seq![TokenView::Punct('/')] + ts),
{
    let two = seq![TokenView::Punct('/'), TokenView::Punct('/')] + ts;
    assert(two.drop_first() == seq![TokenView::Punct('/')] + ts);
    assert((seq![TokenView::Punct('/')] + ts).drop_first() == ts);
}

}

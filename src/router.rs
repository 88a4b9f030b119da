//! Path decoding, base-path stripping and dispatch of a request to a route.

use vstd::prelude::*;

use crate::form::{decode_strict, strict_text};
use crate::text::{chars_of, lemma_split_len, split_on};
use crate::value_multiset::views;

verus! {

/// The pages and actions that the fixed route table knows.
#[derive(PartialEq, Eq, Structural, Clone, Copy, Debug)]
pub enum Page {
    Index,
    Json,
    Cbor,
    Add,
    Edit,
    Delete,
    Couplings,
    CouplingAdd,
    CouplingEdit,
    CouplingDelete,
}

/// Where a request path leads.
#[derive(PartialEq, Eq, Debug)]
pub enum Route {
    Page(Page),
    /// A file of the static directory, by its exact name.
    Static(String),
    NotFound,
}

/// The request methods that routes tell apart.
#[derive(PartialEq, Eq, Debug)]
pub enum Method {
    Get,
    Post,
    /// Any other method, by its name.
    Other(String),
}

/// What to do with a request.
#[derive(Debug)]
pub enum Dispatch {
    /// Serve the page.
    Serve(Page),
    /// Serve the static file of this name.
    StaticFile(String),
    /// The configured base path does not decode.
    BadBasePath,
    /// The request path does not decode.
    BadPath,
    /// The request path does not start with the base path.
    OutsideBasePath,
    NotFound,
    /// The route exists but takes other methods, these.
    MethodNotAllowed(Vec<Method>),
}

/// The name under which the route table lists a page.
pub open spec fn page_name(p: Page) -> Seq<char> {
    match p {
        Page::Index => ""@,
        Page::Json => "json"@,
        Page::Cbor => "cbor"@,
        Page::Add => "add"@,
        Page::Edit => "edit"@,
        Page::Delete => "delete"@,
        Page::Couplings => "couplings"@,
        Page::CouplingAdd => "coupling-add"@,
        Page::CouplingEdit => "coupling-edit"@,
        Page::CouplingDelete => "coupling-delete"@,
    }
}

/// The page that a single non-empty segment names.
pub open spec fn page_named(s: Seq<char>) -> Option<Page> {
    if s == "json"@ {
        Some(Page::Json)
    } else if s == "cbor"@ {
        Some(Page::Cbor)
    } else if s == "add"@ {
        Some(Page::Add)
    } else if s == "edit"@ {
        Some(Page::Edit)
    } else if s == "delete"@ {
        Some(Page::Delete)
    } else if s == "couplings"@ {
        Some(Page::Couplings)
    } else if s == "coupling-add"@ {
        Some(Page::CouplingAdd)
    } else if s == "coupling-edit"@ {
        Some(Page::CouplingEdit)
    } else if s == "coupling-delete"@ {
        Some(Page::CouplingDelete)
    } else {
        None
    }
}

/// The pattern that a static file name must match: dot-separated runs of
/// letters, digits, `_` and `-`, so that no name leaves the directory.
pub const STATIC_FILE_PATTERN: &'static str = "^[A-Za-z0-9_-]+(?:[.][A-Za-z0-9_-]+)*$";

/// A character that may stand in a static file name besides the dots.
pub open spec fn name_char(c: char) -> bool {
    let u = c as u32;
    (0x41 <= u && u <= 0x5A) || (0x61 <= u && u <= 0x7A) || (0x30 <= u && u <= 0x39) || u == 0x5F
        || u == 0x2D
}

/// The names that the static file pattern matches: one or more
/// dot-separated runs, none empty, of letters, digits, `_` and `-`.
pub open spec fn static_shape(s: Seq<char>) -> bool {
    forall|i: int|
        0 <= i < split_on(s, '.').len() ==> {
            &&& #[trigger] split_on(s, '.')[i].len() > 0
            &&& forall|j: int|
                0 <= j < split_on(s, '.')[i].len() ==> name_char(#[trigger] split_on(s, '.')[i][j])
        }
}

/// Relies on `regex::Regex::new` and `regex::Regex::is_match`: the static
/// file pattern compiles, and, anchored at both ends, matches exactly the
/// names of `static_shape`.
#[verifier::external_body]
fn regex_is_match(pattern: &str, text: &str) -> (r: Option<bool>)
    requires
        pattern@ == STATIC_FILE_PATTERN@,
    ensures
        r == Some(static_shape(text@)),
{
    match regex::Regex::new(pattern) {
        Ok(re) => Some(re.is_match(text)),
        Err(_) => None,
    }
}

/// Whether `a` is the text `b`.
fn same_text(a: &String, b: &str) -> (r: bool)
    ensures
        r == (a@ == b@),
{
    *a == String::from_str(b)
}

/// A static file name of the allowed shape.
pub open spec fn is_static_name(s: Seq<char>) -> bool {
    static_shape(s)
}

/// The route of the path segments that follow the base path.
pub open spec fn route_of(parts: Seq<Seq<char>>) -> Route {
    if parts.len() == 0 || (parts.len() == 1 && parts[0].len() == 0) {
        Route::Page(Page::Index)
    } else if parts.len() == 1 {
        match page_named(parts[0]) {
            Some(p) => Route::Page(p),
            None => Route::NotFound,
        }
    } else {
        Route::NotFound
    }
}

/// Routes the path segments that follow the base path: none, or one empty
/// segment, is the index; one segment names a page; `static` and a file
/// name of the allowed shape is a static file; anything else is not found.
pub fn route_parts(parts: &[String]) -> (r: Route)
    ensures
        parts@.len() == 2 && parts@[0]@ == "static"@ && is_static_name(parts@[1]@) ==> r
            == Route::Static(parts@[1]),
        !(parts@.len() == 2 && parts@[0]@ == "static"@ && is_static_name(parts@[1]@)) ==> r
            == route_of(views(parts@)),
{
    let n = parts.len();
    if n == 0 || (n == 1 && parts[0].as_str().is_empty()) {
        assert(n == 1 ==> views(parts@)[0] == parts@[0]@);
        Route::Page(Page::Index)
    } else if n == 1 {
        assert(views(parts@)[0] == parts@[0]@);
        let s = &parts[0];
        let page = if same_text(s, "json") {
            Some(Page::Json)
        } else if same_text(s, "cbor") {
            Some(Page::Cbor)
        } else if same_text(s, "add") {
            Some(Page::Add)
        } else if same_text(s, "edit") {
            Some(Page::Edit)
        } else if same_text(s, "delete") {
            Some(Page::Delete)
        } else if same_text(s, "couplings") {
            Some(Page::Couplings)
        } else if same_text(s, "coupling-add") {
            Some(Page::CouplingAdd)
        } else if same_text(s, "coupling-edit") {
            Some(Page::CouplingEdit)
        } else if same_text(s, "coupling-delete") {
            Some(Page::CouplingDelete)
        } else {
            None
        };
        match page {
            Some(p) => Route::Page(p),
            None => Route::NotFound,
        }
    } else if n == 2 && same_text(&parts[0], "static") && regex_is_match(
        STATIC_FILE_PATTERN,
        parts[1].as_str(),
    ) == Some(true) {
        Route::Static(parts[1].clone())
    } else {
        Route::NotFound
    }
}

/// The decoded segments of the `/`-separated pieces, or nothing if one has
/// a malformed escape or is not valid UTF-8 once decoded.
pub open spec fn segments(ps: Seq<Seq<u8>>) -> Option<Seq<Seq<char>>>
    decreases ps.len(),
{
    if ps.len() == 0 {
        Some(Seq::empty())
    } else {
        match (segments(ps.drop_last()), strict_text(ps.last())) {
            (Some(rest), Some(x)) => Some(rest.push(x)),
            _ => None,
        }
    }
}

/// The percent-decoded segments of a path; with `strip_first_empty`, an
/// empty first segment (the one before a leading `/`) is left out.
pub open spec fn path_parts(p: Seq<u8>, strip_first_empty: bool) -> Option<Seq<Seq<char>>> {
    match segments(split_on(p, 0x2Fu8)) {
        Some(s) => if strip_first_empty && s.len() > 0 && s[0].len() == 0 {
            Some(s.drop_first())
        } else {
            Some(s)
        },
        None => None,
    }
}

proof fn lemma_segments_prefix_none(a: Seq<Seq<u8>>, b: Seq<Seq<u8>>)
    requires
        a.len() <= b.len(),
        a == b.subrange(0, a.len() as int),
        segments(a) is None,
    ensures
        segments(b) is None,
    decreases b.len(),
{
    if b.len() > a.len() {
        assert(b.drop_last().subrange(0, a.len() as int) =~= a);
        lemma_segments_prefix_none(a, b.drop_last());
    } else {
        assert(a =~= b);
    }
}

proof fn lemma_split_prefix(q: Seq<u8>, i: int, sep: u8)
    requires
        0 <= i <= q.len(),
    ensures
        split_on(q.subrange(0, i), sep).drop_last() == split_on(q, sep).subrange(
            0,
            split_on(q.subrange(0, i), sep).len() - 1,
        ),
        split_on(q.subrange(0, i), sep).len() <= split_on(q, sep).len(),
    decreases q.len() - i,
{
    lemma_split_len(q.subrange(0, i), sep);
    if i == q.len() {
        assert(q.subrange(0, i) =~= q);
        assert(split_on(q, sep).drop_last() =~= split_on(q, sep).subrange(0, split_on(q, sep).len() - 1));
    } else {
        let a = split_on(q.subrange(0, i), sep);
        let b = split_on(q.subrange(0, i + 1), sep);
        assert(q.subrange(0, i + 1).drop_last() =~= q.subrange(0, i));
        lemma_split_prefix(q, i + 1, sep);
        lemma_split_len(q.subrange(0, i + 1), sep);
        if q[i] == sep {
            assert(b.drop_last() == a);
            assert(a.drop_last() =~= b.subrange(0, a.len() - 1));
        } else {
            assert(b.drop_last() =~= a.drop_last());
            assert(b.len() == a.len());
        }
        let c = split_on(q, sep);
        assert(b.drop_last() == c.subrange(0, b.len() - 1));
        assert(a.drop_last() =~= c.subrange(0, a.len() - 1));
    }
}

/// Splits a path at `/` and percent-decodes each segment; nothing comes back
/// if a segment holds a `%` not followed by two hexadecimal digits, or is not
/// valid UTF-8 once decoded.
pub fn path_to_parts(path: &[u8], strip_first_empty: bool) -> (r: Option<Vec<String>>)
    ensures
        match r {
            Some(v) => path_parts(path@, strip_first_empty) == Some(views(v@)),
            None => path_parts(path@, strip_first_empty) is None,
        },
{
    let n = path.len();
    let mut parts: Vec<String> = Vec::new();
    let mut start: usize = 0;
    let mut i: usize = 0;
    while i < n
        invariant
            start <= i <= n,
            n == path@.len(),
            ({
                let sp = split_on(path@.subrange(0, i as int), 0x2Fu8);
                &&& sp.len() >= 1
                &&& sp.last() == path@.subrange(start as int, i as int)
                &&& segments(sp.drop_last()) == Some(views(parts@))
            }),
        decreases n - i,
    {
        let ghost sp = split_on(path@.subrange(0, i as int), 0x2Fu8);
        let ghost sp2 = split_on(path@.subrange(0, i + 1), 0x2Fu8);
        assert(path@.subrange(0, i + 1).drop_last() =~= path@.subrange(0, i as int));
        if path[i] == 0x2F {
            assert(sp2 == sp.push(Seq::<u8>::empty()));
            assert(sp2.drop_last() =~= sp);
            match decode_strict(&path[start..i]) {
                Some(x) => {
                    parts.push(x);
                },
                None => {
                    proof {
                        lemma_split_prefix(path@, i + 1, 0x2Fu8);
                        lemma_segments_prefix_none(sp, split_on(path@, 0x2Fu8));
                    }
                    return None;
                },
            }
            proof {
                assert(views(parts@) =~= views(parts@.drop_last()).push(parts@.last()@));
                assert(path@.subrange(i + 1, i + 1) =~= Seq::<u8>::empty());
            }
            start = i + 1;
        } else {
            proof {
                lemma_split_len(path@.subrange(0, i as int), 0x2Fu8);
                assert(sp2.drop_last() =~= sp.drop_last());
                assert(sp2.last() =~= path@.subrange(start as int, i + 1));
            }
        }
        i = i + 1;
    }
    assert(path@.subrange(0, n as int) =~= path@);
    match decode_strict(&path[start..n]) {
        Some(x) => {
            parts.push(x);
        },
        None => {
            return None;
        },
    }
    assert(views(parts@) =~= views(parts@.drop_last()).push(parts@.last()@));
    assert(views(parts@)[0] == parts@[0]@);
    if strip_first_empty && parts[0].as_str().is_empty() {
        let ghost before = parts@;
        parts.remove(0);
        assert(views(parts@) =~= views(before).drop_first());
    }
    Some(parts)
}

/// Whether `needle` is a prefix of `haystack`.
pub open spec fn has_prefix(haystack: Seq<Seq<char>>, needle: Seq<Seq<char>>) -> bool {
    needle.len() <= haystack.len() && haystack.subrange(0, needle.len() as int) == needle
}

/// The segments of `haystack` after the prefix `needle`, or nothing if
/// `haystack` does not start with `needle`.
pub fn strip_path_prefix(haystack: &[String], needle: &[String]) -> (r: Option<Vec<String>>)
    ensures
        match r {
            Some(v) => has_prefix(views(haystack@), views(needle@)) && views(v@) == views(
                haystack@,
            ).skip(needle@.len() as int),
            None => !has_prefix(views(haystack@), views(needle@)),
        },
{
    if needle.len() > haystack.len() {
        return None;
    }
    let mut i: usize = 0;
    while i < needle.len()
        invariant
            i <= needle@.len() <= haystack@.len(),
            forall|j: int| 0 <= j < i ==> haystack@[j]@ == needle@[j]@,
        decreases needle@.len() - i,
    {
        if haystack[i] != needle[i] {
            assert(views(haystack@).subrange(0, needle@.len() as int)[i as int] == haystack@[i as int]@);
            return None;
        }
        i = i + 1;
    }
    assert(views(haystack@).subrange(0, needle@.len() as int) =~= views(needle@));
    let mut rest: Vec<String> = Vec::new();
    let mut k: usize = needle.len();
    while k < haystack.len()
        invariant
            needle@.len() <= k <= haystack@.len(),
            views(rest@) =~= views(haystack@).subrange(needle@.len() as int, k as int),
        decreases haystack@.len() - k,
    {
        let ghost before = rest@;
        rest.push(haystack[k].clone());
        assert(views(rest@) =~= views(before).push(haystack@[k as int]@));
        k = k + 1;
    }
    Some(rest)
}

/// The methods that a page takes.
pub open spec fn allows(p: Page, m: Method) -> bool {
    match p {
        Page::Index | Page::Json | Page::Cbor | Page::Couplings => m == Method::Get,
        Page::Add | Page::Edit | Page::CouplingAdd | Page::CouplingEdit => m == Method::Get || m
            == Method::Post,
        Page::Delete | Page::CouplingDelete => m == Method::Post,
    }
}

/// The methods that a page takes, in the order an `Allow` header lists them.
pub open spec fn methods_of(p: Page) -> Seq<Method> {
    match p {
        Page::Index | Page::Json | Page::Cbor | Page::Couplings => seq![Method::Get],
        Page::Add | Page::Edit | Page::CouplingAdd | Page::CouplingEdit => seq![
            Method::Get,
            Method::Post,
        ],
        Page::Delete | Page::CouplingDelete => seq![Method::Post],
    }
}

/// The methods that a page takes, in the order an `Allow` header lists them.
pub fn allowed_methods(p: Page) -> (r: Vec<Method>)
    ensures
        r@ == methods_of(p),
        forall|m: Method| allows(p, m) <==> r@.contains(m),
{
    let r = match p {
        Page::Index | Page::Json | Page::Cbor | Page::Couplings => vec![Method::Get],
        Page::Add | Page::Edit | Page::CouplingAdd | Page::CouplingEdit => vec![
            Method::Get,
            Method::Post,
        ],
        Page::Delete | Page::CouplingDelete => vec![Method::Post],
    };
    proof {
        assert forall|m: Method| allows(p, m) <==> r@.contains(m) by {
            if allows(p, m) {
                if m == Method::Get {
                    assert(r@[0] == m);
                } else {
                    assert(r@[r@.len() - 1] == m);
                }
            }
        }
    }
    r
}

fn method_allowed(p: Page, m: &Method) -> (r: bool)
    ensures
        r == allows(p, *m),
{
    match m {
        Method::Get => match p {
            Page::Delete | Page::CouplingDelete => false,
            _ => true,
        },
        Method::Post => match p {
            Page::Index | Page::Json | Page::Cbor | Page::Couplings => false,
            _ => true,
        },
        Method::Other(_) => false,
    }
}

/// What the dispatch of a request path comes to, before the method is
/// looked at.
pub open spec fn path_route(path: Seq<u8>, base_path: Seq<u8>) -> Option<Route> {
    match (path_parts(base_path, true), path_parts(path, true)) {
        (Some(bp), Some(pp)) => if has_prefix(pp, bp) {
            let rest = pp.skip(bp.len() as int);
            if rest.len() == 2 && rest[0] == "static"@ && is_static_name(rest[1]) {
                None
            } else {
                Some(route_of(rest))
            }
        } else {
            None
        },
        _ => None,
    }
}

/// Decides what a request comes to. The configured base path must decode,
/// else `BadBasePath`; the request path must decode, else `BadPath`, and
/// start with the base path, else `OutsideBasePath`. What follows the base
/// path is routed; a page that does not take `method` gives
/// `MethodNotAllowed` with the methods it takes.
pub fn dispatch(method: &Method, path: &[u8], base_path: &[u8]) -> (r: Dispatch)
    ensures
        path_parts(base_path@, true) is None <==> r is BadBasePath,
        path_parts(base_path@, true) is Some && path_parts(path@, true) is None <==> r is BadPath,
        (path_parts(base_path@, true) is Some && path_parts(path@, true) is Some && !has_prefix(
            path_parts(path@, true).unwrap(),
            path_parts(base_path@, true).unwrap(),
        )) <==> r is OutsideBasePath,
        r is StaticFile ==> ({
            let rest = path_parts(path@, true).unwrap().skip(
                path_parts(base_path@, true).unwrap().len() as int,
            );
            &&& has_prefix(path_parts(path@, true).unwrap(), path_parts(base_path@, true).unwrap())
            &&& rest.len() == 2
            &&& rest[0] == "static"@
            &&& is_static_name(rest[1])
            &&& rest[1] == r->StaticFile_0@
        }),
        (path_parts(base_path@, true) is Some && path_parts(path@, true) is Some && has_prefix(
            path_parts(path@, true).unwrap(),
            path_parts(base_path@, true).unwrap(),
        ) && path_route(path@, base_path@) is None) ==> r is StaticFile,
        path_route(path@, base_path@) == Some(Route::NotFound) <==> r is NotFound,
        forall|p: Page|
            path_route(path@, base_path@) == Some(Route::Page(p)) ==> (if allows(p, *method) {
                r == Dispatch::Serve(p)
            } else {
                r is MethodNotAllowed && r->MethodNotAllowed_0@ == methods_of(p)
            }),
{
    let bp = match path_to_parts(base_path, true) {
        Some(bp) => bp,
        None => {
            return Dispatch::BadBasePath;
        },
    };
    let pp = match path_to_parts(path, true) {
        Some(pp) => pp,
        None => {
            return Dispatch::BadPath;
        },
    };
    let rest = match strip_path_prefix(pp.as_slice(), bp.as_slice()) {
        Some(rest) => rest,
        None => {
            return Dispatch::OutsideBasePath;
        },
    };
    assert(rest@.len() == 2 ==> views(rest@)[0] == rest@[0]@ && views(rest@)[1] == rest@[1]@);
    match route_parts(rest.as_slice()) {
        Route::Page(p) => {
            if method_allowed(p, method) {
                Dispatch::Serve(p)
            } else {
                Dispatch::MethodNotAllowed(allowed_methods(p))
            }
        },
        Route::Static(name) => Dispatch::StaticFile(name),
        Route::NotFound => Dispatch::NotFound,
    }
}

/// Whether `s` ends with `t`.
pub open spec fn ends_with(s: Seq<char>, t: Seq<char>) -> bool {
    t.len() <= s.len() && s.subrange(s.len() - t.len(), s.len() as int) == t
}

/// Whether the characters `s` end with the characters `t`.
fn chars_end_with(s: &[char], t: &[char]) -> (r: bool)
    ensures
        r == ends_with(s@, t@),
{
    if t.len() > s.len() {
        return false;
    }
    let off = s.len() - t.len();
    let mut i: usize = 0;
    while i < t.len()
        invariant
            off + t@.len() == s@.len() <= usize::MAX,
            i <= t@.len(),
            forall|j: int| 0 <= j < i ==> s@[off + j] == t@[j],
        decreases t@.len() - i,
    {
        if s[off + i] != t[i] {
            assert(s@.subrange(off as int, s@.len() as int)[i as int] != t@[i as int]);
            return false;
        }
        i = i + 1;
    }
    assert(s@.subrange(off as int, s@.len() as int) =~= t@);
    true
}

/// The content type of a static file, by the end of its name.
pub open spec fn content_type_of(name: Seq<char>) -> Seq<char> {
    if ends_with(name, ".css"@) {
        "text/css"@
    } else if ends_with(name, ".js"@) {
        "text/javascript"@
    } else if ends_with(name, ".js.map"@) {
        "application/json"@
    } else if ends_with(name, ".ts"@) {
        "text/x.typescript"@
    } else {
        "application/octet-stream"@
    }
}

/// The content type under which a static file is served.
pub fn static_content_type(name: &str) -> (r: &'static str)
    ensures
        r@ == content_type_of(name@),
{
    let cs = chars_of(name);
    if chars_end_with(&cs, &chars_of(".css")) {
        "text/css"
    } else if chars_end_with(&cs, &chars_of(".js")) {
        "text/javascript"
    } else if chars_end_with(&cs, &chars_of(".js.map")) {
        "application/json"
    } else if chars_end_with(&cs, &chars_of(".ts")) {
        "text/x.typescript"
    } else {
        "application/octet-stream"
    }
}

} // verus!

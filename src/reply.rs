//! The plain-text replies: errors, redirects, and the escaping of text for
//! use in a URL.

use vstd::prelude::*;

use crate::router::Method;
use crate::text::string_of;
use vstd::utf8::encode_utf8;

verus! {

/// An HTTP reply with a text body.
#[derive(Debug)]
pub struct Reply {
    pub status: u16,
    pub content_type: &'static str,
    /// Where a redirect leads.
    pub location: Option<String>,
    /// The methods a route takes, for a reply that refuses the method.
    pub allow: Option<String>,
    pub body: String,
}

pub open spec fn plain_text() -> Seq<char> {
    "text/plain; charset=utf-8"@
}

/// A failure of the server's own, with no detail given.
pub fn return_500() -> (r: Reply)
    ensures
        r.status == 500,
        r.content_type@ == plain_text(),
        r.location is None,
        r.allow is None,
        r.body@ == "500 Internal Server Error"@,
{
    Reply {
        status: 500,
        content_type: "text/plain; charset=utf-8",
        location: None,
        allow: None,
        body: String::from_str("500 Internal Server Error"),
    }
}

/// A request that cannot be served as made, with the reason.
pub fn return_400(reason: &str) -> (r: Reply)
    ensures
        r.status == 400,
        r.content_type@ == plain_text(),
        r.location is None,
        r.allow is None,
        r.body@ == "400 Bad Request: "@ + reason@,
{
    Reply {
        status: 400,
        content_type: "text/plain; charset=utf-8",
        location: None,
        allow: None,
        body: String::from_str("400 Bad Request: ").concat(reason),
    }
}

/// A path that leads nowhere.
pub fn return_404() -> (r: Reply)
    ensures
        r.status == 404,
        r.content_type@ == plain_text(),
        r.location is None,
        r.allow is None,
        r.body@ == "404 Not Found"@,
{
    Reply {
        status: 404,
        content_type: "text/plain; charset=utf-8",
        location: None,
        allow: None,
        body: String::from_str("404 Not Found"),
    }
}

/// The name of a method as a request writes it.
pub open spec fn method_name(m: Method) -> Seq<char> {
    match m {
        Method::Get => "GET"@,
        Method::Post => "POST"@,
        Method::Other(s) => s@,
    }
}

pub fn method_text(m: &Method) -> (r: String)
    ensures
        r@ == method_name(*m),
{
    match m {
        Method::Get => String::from_str("GET"),
        Method::Post => String::from_str("POST"),
        Method::Other(s) => s.clone(),
    }
}

/// The names of the methods, separated by `, `.
pub open spec fn method_list(ms: Seq<Method>) -> Seq<char>
    decreases ms.len(),
{
    if ms.len() == 0 {
        Seq::empty()
    } else if ms.len() == 1 {
        method_name(ms[0])
    } else {
        method_list(ms.drop_last()) + ", "@ + method_name(ms.last())
    }
}

/// A method that the route does not take, with the methods it does take
/// in an `Allow` header and in the body.
pub fn return_405(method: &Method, allowed_methods: &[Method]) -> (r: Reply)
    ensures
        r.status == 405,
        r.content_type@ == plain_text(),
        r.location is None,
        r.allow is Some && r.allow.unwrap()@ == method_list(allowed_methods@),
        r.body@ == "unsupported method "@ + method_name(*method) + "; allowed: "@ + method_list(
            allowed_methods@,
        ),
{
    let mut list = String::new();
    let mut i: usize = 0;
    while i < allowed_methods.len()
        invariant
            i <= allowed_methods@.len(),
            list@ == method_list(allowed_methods@.subrange(0, i as int)),
        decreases allowed_methods@.len() - i,
    {
        assert(allowed_methods@.subrange(0, i + 1).drop_last() =~= allowed_methods@.subrange(
            0,
            i as int,
        ));
        if i > 0 {
            list.append(", ");
        } else {
            assert(list@ =~= Seq::<char>::empty());
        }
        let name = method_text(&allowed_methods[i]);
        list.append(name.as_str());
        i = i + 1;
        proof {
            if i == 1 {
                assert(list@ =~= method_name(allowed_methods@[0]));
            }
        }
    }
    assert(allowed_methods@.subrange(0, i as int) =~= allowed_methods@);
    let m = method_text(method);
    let body = String::from_str("unsupported method ").concat(m.as_str()).concat("; allowed: ").concat(
        list.as_str(),
    );
    Reply {
        status: 405,
        content_type: "text/plain; charset=utf-8",
        location: None,
        allow: Some(list),
        body,
    }
}

/// A redirect after a write.
pub fn redirect(location: String) -> (r: Reply)
    ensures
        r.status == 302,
        r.content_type@ == plain_text(),
        r.location is Some && r.location.unwrap()@ == location@,
        r.allow is None,
        r.body@ == "redirecting..."@,
{
    Reply {
        status: 302,
        content_type: "text/plain; charset=utf-8",
        location: Some(location),
        allow: None,
        body: String::from_str("redirecting..."),
    }
}

/// Where a vehicle write leads: the base path, or `/` if that is empty.
pub fn vehicles_location(base_path: &str) -> (r: String)
    ensures
        r@ == (if base_path@.len() == 0 {
            "/"@
        } else {
            base_path@
        }),
{
    if base_path.is_empty() {
        String::from_str("/")
    } else {
        String::from_str(base_path)
    }
}

/// Where a coupling write leads: the coupling list under the base path.
pub fn couplings_location(base_path: &str) -> (r: String)
    ensures
        r@ == base_path@ + "/couplings"@,
{
    String::from_str(base_path).concat("/couplings")
}

/// The bytes that URLs carry as they are (RFC 3986's unreserved set).
pub open spec fn is_unreserved(b: u8) -> bool {
    (0x41 <= b && b <= 0x5A) || (0x61 <= b && b <= 0x7A) || (0x30 <= b && b <= 0x39) || b == 0x2D
        || b == 0x2E || b == 0x5F || b == 0x7E
}

/// An uppercase hexadecimal digit.
pub open spec fn hex_digit(n: u8) -> char {
    if n < 10 {
        ((0x30 + n) as u8) as char
    } else {
        ((0x41 + n - 10) as u8) as char
    }
}

/// The URL form of UTF-8 bytes: unreserved bytes as themselves, every
/// other byte as `%` and two uppercase hexadecimal digits.
pub open spec fn url_escaped(b: Seq<u8>) -> Seq<char>
    decreases b.len(),
{
    if b.len() == 0 {
        Seq::empty()
    } else {
        url_escaped(b.drop_last()) + if is_unreserved(b.last()) {
            seq![b.last() as char]
        } else {
            seq!['%', hex_digit(b.last() / 16), hex_digit(b.last() % 16)]
        }
    }
}

fn hex_char(n: u8) -> (r: char)
    requires
        n < 16,
    ensures
        r == hex_digit(n),
{
    if n < 10 {
        (0x30 + n) as char
    } else {
        (0x41 + n - 10) as char
    }
}

/// Escapes text for use as one component of a URL.
pub fn url(s: &str) -> (r: String)
    ensures
        r@ == url_escaped(encode_utf8(s@)),
{
    let bytes = s.as_bytes();
    let mut out: Vec<char> = Vec::new();
    let mut i: usize = 0;
    while i < bytes.len()
        invariant
            i <= bytes@.len(),
            out@ == url_escaped(bytes@.subrange(0, i as int)),
        decreases bytes@.len() - i,
    {
        assert(bytes@.subrange(0, i + 1).drop_last() =~= bytes@.subrange(0, i as int));
        let b = bytes[i];
        let ghost before = out@;
        if (0x41 <= b && b <= 0x5A) || (0x61 <= b && b <= 0x7A) || (0x30 <= b && b <= 0x39) || b
            == 0x2D || b == 0x2E || b == 0x5F || b == 0x7E {
            out.push(b as char);
            assert(out@ =~= before + seq![b as char]);
        } else {
            out.push('%');
            out.push(hex_char(b / 16));
            out.push(hex_char(b % 16));
            assert(out@ =~= before + seq!['%', hex_digit(b / 16), hex_digit(b % 16)]);
        }
        i = i + 1;
    }
    assert(bytes@.subrange(0, i as int) =~= bytes@);
    string_of(out.as_slice())
}

} // verus!

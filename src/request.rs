//! Parameters of requests: page numbers, ids and the company filter.

use vstd::prelude::*;

use crate::text::{chars_of, string_of, trim_chars, trimmed};
use crate::value_multiset::ValueMultiset;

verus! {

pub open spec fn is_digit(c: char) -> bool {
    0x30 <= (c as u32) && (c as u32) <= 0x39
}

pub open spec fn all_digits(s: Seq<char>) -> bool {
    forall|i: int| 0 <= i < s.len() ==> is_digit(#[trigger] s[i])
}

/// The number that a string of decimal digits spells.
pub open spec fn digits_value(s: Seq<char>) -> int
    decreases s.len(),
{
    if s.len() == 0 {
        0
    } else {
        digits_value(s.drop_last()) * 10 + (s.last() as u32 - 0x30)
    }
}

/// The integer that `s` spells: an optional `+` or `-` and then one or more
/// decimal digits, nothing else.
pub open spec fn decimal_value(s: Seq<char>) -> Option<int> {
    if s.len() > 0 && (s[0] == '+' || s[0] == '-') {
        let d = s.drop_first();
        if d.len() > 0 && all_digits(d) {
            Some(
                if s[0] == '-' {
                    -digits_value(d)
                } else {
                    digits_value(d)
                },
            )
        } else {
            None
        }
    } else if s.len() > 0 && all_digits(s) {
        Some(digits_value(s))
    } else {
        None
    }
}

/// The `i64` that `s` spells, if it spells one in range.
pub open spec fn parsed_i64(s: Seq<char>) -> Option<i64> {
    match decimal_value(s) {
        Some(v) => if i64::MIN <= v <= i64::MAX {
            Some(v as i64)
        } else {
            None
        },
        None => None,
    }
}

proof fn lemma_digits_nonneg(s: Seq<char>)
    requires
        all_digits(s),
    ensures
        digits_value(s) >= 0,
    decreases s.len(),
{
    if s.len() > 0 {
        assert(all_digits(s.drop_last())) by {
            assert forall|i: int| 0 <= i < s.drop_last().len() implies is_digit(
                #[trigger] s.drop_last()[i],
            ) by {
                assert(s.drop_last()[i] == s[i]);
            }
        }
        lemma_digits_nonneg(s.drop_last());
        assert(is_digit(s[s.len() - 1]));
    }
}

/// A longer run of digits is worth at least as much as its prefix.
proof fn lemma_digits_grow(s: Seq<char>, k: int)
    requires
        all_digits(s),
        0 <= k <= s.len(),
    ensures
        digits_value(s) >= digits_value(s.subrange(0, k)),
    decreases s.len() - k,
{
    if k < s.len() {
        let p = s.subrange(0, k + 1);
        assert(p.drop_last() =~= s.subrange(0, k));
        assert(all_digits(p)) by {
            assert forall|i: int| 0 <= i < p.len() implies is_digit(#[trigger] p[i]) by {
                assert(p[i] == s[i]);
            }
        }
        lemma_digits_nonneg(s.subrange(0, k));
        assert(is_digit(p.last()));
        lemma_digits_grow(s, k + 1);
    } else {
        assert(s.subrange(0, k) =~= s);
    }
}

/// Reads an `i64` written as an optional `+` or `-` and then one or more
/// decimal digits, nothing else; nothing comes back for other text or a
/// number out of range.
pub fn parse_i64(s: &str) -> (r: Option<i64>)
    ensures
        r == parsed_i64(s@),
{
    let cs = chars_of(s);
    let n = cs.len();
    if n == 0 {
        return None;
    }
    let negative = cs[0] == '-';
    let start: usize = if cs[0] == '+' || cs[0] == '-' { 1 } else { 0 };
    if start == n {
        return None;
    }
    let ghost d = cs@.subrange(start as int, n as int);
    assert(start == 1 ==> d =~= s@.drop_first());
    assert(start == 0 ==> d =~= s@);
    let mut acc: i64 = 0;
    let mut i: usize = start;
    while i < n
        invariant
            start <= i <= n == cs@.len(),
            cs@ == s@,
            d == cs@.subrange(start as int, n as int),
            s@.len() > 0,
            negative == (s@[0] == '-'),
            start == 0 || start == 1,
            start == 1 ==> (s@[0] == '+' || s@[0] == '-') && d == s@.drop_first(),
            start == 0 ==> !(s@[0] == '+' || s@[0] == '-') && d == s@,
            all_digits(cs@.subrange(start as int, i as int)),
            negative ==> acc == -digits_value(cs@.subrange(start as int, i as int)),
            !negative ==> acc == digits_value(cs@.subrange(start as int, i as int)),
        decreases n - i,
    {
        let c = cs[i];
        let ghost pre = cs@.subrange(start as int, i as int);
        let ghost next = cs@.subrange(start as int, i + 1);
        assert(next.drop_last() =~= pre);
        let code = c as u32;
        if !(code >= 0x30 && code <= 0x39) {
            assert(!all_digits(d)) by {
                assert(d[i - start] == c);
            }
            proof {
                if start == 1 {
                    assert(s@.drop_first() == d);
                } else {
                    assert(s@ == d);
                    assert(!all_digits(s@));
                }
            }
            assert(decimal_value(s@) is None);
            return None;
        }
        assert(all_digits(next)) by {
            assert forall|j: int| 0 <= j < next.len() implies is_digit(#[trigger] next[j]) by {
                if j < pre.len() {
                    assert(next[j] == pre[j]);
                }
            }
        }
        let digit = (code - 0x30) as i64;
        let step = if negative {
            match acc.checked_mul(10) {
                Some(t) => t.checked_sub(digit),
                None => None,
            }
        } else {
            match acc.checked_mul(10) {
                Some(t) => t.checked_add(digit),
                None => None,
            }
        };
        match step {
            Some(v) => {
                acc = v;
            },
            None => {
                proof {
                    lemma_digits_nonneg(pre);
                    assert(next.last() == c);
                    assert(digits_value(next) == digits_value(pre) * 10 + digit);
                    if all_digits(d) {
                        lemma_digits_grow(d, i + 1 - start);
                        assert(d.subrange(0, i + 1 - start) =~= next);
                        assert(digits_value(d) > i64::MAX || -digits_value(d) < i64::MIN);
                        if start == 1 {
                            assert(s@.drop_first() == d);
                            if negative {
                                assert(decimal_value(s@) == Some(-digits_value(d)));
                            } else {
                                assert(decimal_value(s@) == Some(digits_value(d)));
                            }
                        } else {
                            assert(s@ == d);
                            assert(decimal_value(s@) == Some(digits_value(d)));
                        }
                    } else {
                        if start == 1 {
                            assert(s@.drop_first() == d);
                        } else {
                            assert(s@ == d);
                        }
                        assert(decimal_value(s@) is None);
                    }
                    assert(parsed_i64(s@) is None);
                }
                return None;
            },
        }
        i = i + 1;
    }
    assert(cs@.subrange(start as int, n as int) == d);
    Some(acc)
}

/// A parameter that is missing or malformed.
#[derive(PartialEq, Eq, Structural, Clone, Copy, Debug)]
pub enum RequestError {
    /// The query string does not decode.
    BadQuery,
    /// `page` is not an integer.
    InvalidPage,
    /// `page` is negative.
    NegativePage,
    /// `page` is so large that its offset does not fit.
    PageTooLarge,
    /// `id` is not given.
    MissingId,
    /// `id` is not an integer.
    InvalidId,
    /// `company` is not given.
    MissingCompany,
}

/// The reason given to the client for each error.
pub open spec fn request_error_text(e: RequestError) -> Seq<char> {
    match e {
        RequestError::BadQuery => "invalid UTF-8 in query"@,
        RequestError::InvalidPage => "invalid 'page'"@,
        RequestError::NegativePage => "'page' must be >= 0"@,
        RequestError::PageTooLarge => "'page' is too large"@,
        RequestError::MissingId => "missing parameter 'id'"@,
        RequestError::InvalidId => "invalid parameter value for 'id'"@,
        RequestError::MissingCompany => "required parameter 'company' missing"@,
    }
}

impl RequestError {
    /// The reason given to the client.
    pub fn message(&self) -> (r: &'static str)
        ensures
            r@ == request_error_text(*self),
    {
        match self {
            RequestError::BadQuery => "invalid UTF-8 in query",
            RequestError::InvalidPage => "invalid 'page'",
            RequestError::NegativePage => "'page' must be >= 0",
            RequestError::PageTooLarge => "'page' is too large",
            RequestError::MissingId => "missing parameter 'id'",
            RequestError::InvalidId => "invalid parameter value for 'id'",
            RequestError::MissingCompany => "required parameter 'company' missing",
        }
    }
}

/// The last value of `key` in the view of a multiset.
pub open spec fn last_value(q: Map<Seq<char>, Seq<Seq<char>>>, key: Seq<char>) -> Option<Seq<char>> {
    if q.contains_key(key) {
        Some(q[key].last())
    } else {
        None
    }
}

/// The page asked for: the last `page` value, `0` if none is given.
pub open spec fn page_text(q: Map<Seq<char>, Seq<Seq<char>>>) -> Seq<char> {
    match last_value(q, "page"@) {
        Some(p) => p,
        None => "0"@,
    }
}

/// The entity id given by the last `id` value.
pub fn required_id(query: &ValueMultiset) -> (r: Result<i64, RequestError>)
    requires
        query.wf(),
    ensures
        match last_value(query@, "id"@) {
            None => r == Err::<i64, RequestError>(RequestError::MissingId),
            Some(t) => match parsed_i64(t) {
                Some(v) => r == Ok::<i64, RequestError>(v),
                None => r == Err::<i64, RequestError>(RequestError::InvalidId),
            },
        },
{
    match query.get_last("id") {
        None => Err(RequestError::MissingId),
        Some(t) => match parse_i64(t.as_str()) {
            Some(v) => Ok(v),
            None => Err(RequestError::InvalidId),
        },
    }
}

/// The company whose vehicles are exported: the last `company` value.
pub fn export_company(query: &ValueMultiset) -> (r: Result<String, RequestError>)
    requires
        query.wf(),
    ensures
        match last_value(query@, "company"@) {
            None => r == Err::<String, RequestError>(RequestError::MissingCompany),
            Some(c) => r is Ok && r.unwrap()@ == c,
        },
{
    match query.get_last("company") {
        None => Err(RequestError::MissingCompany),
        Some(c) => Ok(c.clone()),
    }
}

/// One page of the vehicle list, as the list query takes it.
#[derive(Debug)]
pub struct ListRequest {
    pub page: i64,
    /// Only vehicles of this company; all companies if `None`.
    pub company: Option<String>,
    pub limit: i64,
    pub offset: i64,
}

/// The page of the vehicle list that a query asks for: the page is the last
/// `page` value (`0` if none), which must be an integer and not negative;
/// the company filter is the last `company` value, trimmed, and none if
/// that is empty. A negative page is refused before any listing is made.
pub fn list_request(query: &ValueMultiset, per_page: i64) -> (r: Result<ListRequest, RequestError>)
    requires
        query.wf(),
    ensures
        parsed_i64(page_text(query@)) is None ==> r == Err::<ListRequest, RequestError>(
            RequestError::InvalidPage,
        ),
        parsed_i64(page_text(query@)) matches Some(p) && p < 0 ==> r == Err::<
            ListRequest,
            RequestError,
        >(RequestError::NegativePage),
        parsed_i64(page_text(query@)) matches Some(p) && p >= 0 && (p * per_page < i64::MIN || p
            * per_page > i64::MAX) ==> r == Err::<ListRequest, RequestError>(
            RequestError::PageTooLarge,
        ),
        parsed_i64(page_text(query@)) matches Some(p) && p >= 0 && i64::MIN <= p * per_page
            <= i64::MAX ==> r is Ok,
        r is Ok ==> ({
            let l = r.unwrap();
            let c = match last_value(query@, "company"@) {
                Some(c) => trimmed(c),
                None => Seq::<char>::empty(),
            };
            &&& parsed_i64(page_text(query@)) == Some(l.page)
            &&& l.page >= 0
            &&& l.limit == per_page
            &&& l.offset == l.page * per_page
            &&& match l.company {
                Some(s) => c.len() > 0 && s@ == c,
                None => c.len() == 0,
            }
        }),
        r is Err ==> r == Err::<ListRequest, RequestError>(RequestError::InvalidPage) || r == Err::<
            ListRequest,
            RequestError,
        >(RequestError::NegativePage) || r == Err::<ListRequest, RequestError>(
            RequestError::PageTooLarge,
        ),
{
    let page_opt = match query.get_last("page") {
        Some(p) => parse_i64(p.as_str()),
        None => {
            let zero: Option<i64> = Some(0);
            assert(decimal_value("0"@) == Some(0int)) by {
                reveal_strlit("0");
                assert("0"@.len() == 1);
                assert("0"@[0] == '0');
                assert(all_digits("0"@));
                assert("0"@.drop_last().len() == 0);
                assert(digits_value("0"@.drop_last()) == 0);
                assert(("0"@.last() as u32) == 0x30);
                assert(digits_value("0"@) == 0);
            }
            zero
        },
    };
    let page = match page_opt {
        Some(p) => p,
        None => {
            return Err(RequestError::InvalidPage);
        },
    };
    if page < 0 {
        return Err(RequestError::NegativePage);
    }
    let offset = match page.checked_mul(per_page) {
        Some(o) => o,
        None => {
            return Err(RequestError::PageTooLarge);
        },
    };
    let company = match query.get_last("company") {
        Some(c) => {
            let t = trim_chars(chars_of(c.as_str()).as_slice());
            if t.len() > 0 {
                Some(string_of(t.as_slice()))
            } else {
                None
            }
        },
        None => None,
    };
    Ok(ListRequest { page, company, limit: per_page, offset })
}

} // verus!

//! Decoding of `application/x-www-form-urlencoded` text, used for query
//! strings and for form bodies alike.

use vstd::prelude::*;
use vstd::utf8::{decode_utf8, valid_utf8};

use crate::text::{lemma_split_len, split_on};
use crate::value_multiset::{grouped, ValueMultiset};

verus! {

/// The value of an ASCII hexadecimal digit, either case.
pub open spec fn hex_value(b: u8) -> Option<u8> {
    if 0x30 <= b && b <= 0x39 {
        Some((b - 0x30) as u8)
    } else if 0x41 <= b && b <= 0x46 {
        Some((b - 0x41 + 10) as u8)
    } else if 0x61 <= b && b <= 0x66 {
        Some((b - 0x61 + 10) as u8)
    } else {
        None
    }
}

/// Percent-decoding: `%` followed by two hexadecimal digits stands for the
/// byte they spell; every other byte, a lone `%` included, stands for itself.
pub open spec fn pct_decode(b: Seq<u8>) -> Seq<u8>
    decreases b.len(),
{
    if b.len() == 0 {
        Seq::<u8>::empty()
    } else if b[0] == 0x25 && b.len() >= 3 && hex_value(b[1]) is Some && hex_value(b[2]) is Some {
        seq![(hex_value(b[1]).unwrap() * 16 + hex_value(b[2]).unwrap()) as u8] + pct_decode(
            b.subrange(3, b.len() as int),
        )
    } else {
        seq![b[0]] + pct_decode(b.subrange(1, b.len() as int))
    }
}

/// The text that percent-decoded bytes spell, if they are valid UTF-8.
pub open spec fn decoded_text(b: Seq<u8>) -> Option<Seq<char>> {
    if valid_utf8(pct_decode(b)) {
        Some(decode_utf8(pct_decode(b)))
    } else {
        None
    }
}

/// Form encoding writes a space as `+`; it is turned back before
/// percent-decoding.
pub open spec fn plus_to_space(b: Seq<u8>) -> Seq<u8> {
    b.map_values(|x: u8| if x == 0x2B { 0x20u8 } else { x })
}

/// Every `%` starts an escape of two hexadecimal digits.
pub open spec fn escapes_valid(b: Seq<u8>) -> bool {
    forall|i: int| 0 <= i < b.len() ==> #[trigger] escape_ok_at(b, i)
}

/// The byte at `i` is no `%`, or starts an escape of two hexadecimal digits.
pub open spec fn escape_ok_at(b: Seq<u8>, i: int) -> bool {
    b[i] == 0x25 ==> i + 2 < b.len() && hex_value(b[i + 1]) is Some && hex_value(b[i + 2]) is Some
}

/// The text that percent-encoded bytes spell; a malformed escape, like bytes
/// that are not valid UTF-8 once decoded, spells nothing.
pub open spec fn strict_text(b: Seq<u8>) -> Option<Seq<char>> {
    if escapes_valid(b) {
        decoded_text(b)
    } else {
        None
    }
}

/// The text of one form component.
pub open spec fn form_text(b: Seq<u8>) -> Option<Seq<char>> {
    strict_text(plus_to_space(b))
}

/// The position of the first `x` in `s`.
pub open spec fn first_index(s: Seq<u8>, x: u8) -> Option<int>
    decreases s.len(),
{
    if s.len() == 0 {
        None
    } else {
        match first_index(s.drop_last(), x) {
            Some(i) => Some(i),
            None => if s.last() == x {
                Some(s.len() - 1)
            } else {
                None
            },
        }
    }
}

/// One `&`-separated piece: the key before the first `=` and the value
/// after it, or only a key where there is no `=`.
pub open spec fn piece_pair(p: Seq<u8>) -> Option<(Seq<char>, Option<Seq<char>>)> {
    match first_index(p, 0x3D) {
        Some(i) => match (form_text(p.subrange(0, i)), form_text(p.subrange(i + 1, p.len() as int))) {
            (Some(k), Some(v)) => Some((k, Some(v))),
            _ => None,
        },
        None => match form_text(p) {
            Some(k) => Some((k, None)),
            None => None,
        },
    }
}

/// The pairs of all pieces, or nothing if any piece fails to decode.
pub open spec fn pieces_pairs(ps: Seq<Seq<u8>>) -> Option<Seq<(Seq<char>, Option<Seq<char>>)>>
    decreases ps.len(),
{
    if ps.len() == 0 {
        Some(Seq::empty())
    } else {
        match (pieces_pairs(ps.drop_last()), piece_pair(ps.last())) {
            (Some(rest), Some(x)) => Some(rest.push(x)),
            _ => None,
        }
    }
}

/// The key-value pairs of an encoded query or form body.
pub open spec fn query_pairs(q: Seq<u8>) -> Option<Seq<(Seq<char>, Option<Seq<char>>)>> {
    pieces_pairs(split_on(q, 0x26u8))
}

/// The pairs that carry a value.
pub open spec fn valued(p: Seq<(Seq<char>, Option<Seq<char>>)>) -> Seq<(Seq<char>, Seq<char>)> {
    p.filter_map(
        |x: (Seq<char>, Option<Seq<char>>)|
            match x.1 {
                Some(v) => Some((x.0, v)),
                None => None,
            },
    )
}

/// Relies on `percent_encoding::percent_decode` followed by its
/// `decode_utf8`: percent-decodes the bytes and reads them as UTF-8.
#[verifier::external_body]
fn percent_decode_utf8(b: &[u8]) -> (r: Option<String>)
    ensures
        match r {
            Some(s) => decoded_text(b@) == Some(s@),
            None => decoded_text(b@) is None,
        },
{
    match percent_encoding::percent_decode(b).decode_utf8() {
        Ok(s) => Some(s.into_owned()),
        Err(_) => None,
    }
}

fn is_hex(x: u8) -> (r: bool)
    ensures
        r == (hex_value(x) is Some),
{
    (0x30 <= x && x <= 0x39) || (0x41 <= x && x <= 0x46) || (0x61 <= x && x <= 0x66)
}

/// Whether every `%` in `b` starts an escape of two hexadecimal digits.
pub fn escapes_ok(b: &[u8]) -> (r: bool)
    ensures
        r == escapes_valid(b@),
{
    let n = b.len();
    let mut i: usize = 0;
    while i < n
        invariant
            i <= n == b@.len(),
            forall|j: int| 0 <= j < i ==> #[trigger] escape_ok_at(b@, j),
        decreases n - i,
    {
        if b[i] == 0x25 {
            if n - i <= 2 || !is_hex(b[i + 1]) || !is_hex(b[i + 2]) {
                assert(!escape_ok_at(b@, i as int));
                return false;
            }
        }
        i = i + 1;
    }
    true
}

/// Percent-decodes `b` strictly: a malformed escape, or bytes that are not
/// valid UTF-8 once decoded, give nothing.
pub(crate) fn decode_strict(b: &[u8]) -> (r: Option<String>)
    ensures
        match r {
            Some(s) => strict_text(b@) == Some(s@),
            None => strict_text(b@) is None,
        },
{
    if escapes_ok(b) {
        percent_decode_utf8(b)
    } else {
        None
    }
}

/// `b[from..to]` with every `+` turned into a space.
fn plus_replaced(b: &[u8], from: usize, to: usize) -> (r: Vec<u8>)
    requires
        from <= to <= b@.len(),
    ensures
        r@ == plus_to_space(b@.subrange(from as int, to as int)),
{
    let mut r: Vec<u8> = Vec::new();
    let mut i: usize = from;
    while i < to
        invariant
            from <= i <= to <= b@.len(),
            r@ =~= plus_to_space(b@.subrange(from as int, i as int)),
        decreases to - i,
    {
        let x = b[i];
        r.push(if x == 0x2B { 0x20u8 } else { x });
        i = i + 1;
        assert(r@ =~= plus_to_space(b@.subrange(from as int, i as int)));
    }
    r
}

/// The text of the component `b[from..to]`.
fn component_text(b: &[u8], from: usize, to: usize) -> (r: Option<String>)
    requires
        from <= to <= b@.len(),
    ensures
        match r {
            Some(s) => form_text(b@.subrange(from as int, to as int)) == Some(s@),
            None => form_text(b@.subrange(from as int, to as int)) is None,
        },
{
    let replaced = plus_replaced(b, from, to);
    decode_strict(replaced.as_slice())
}

/// The pair of the piece `q[from..to]`.
fn decode_piece(q: &[u8], from: usize, to: usize) -> (r: Option<(String, Option<String>)>)
    requires
        from <= to <= q@.len(),
    ensures
        match r {
            Some(x) => piece_pair(q@.subrange(from as int, to as int)) == Some(
                (x.0@, match x.1 { Some(v) => Some(v@), None => None }),
            ),
            None => piece_pair(q@.subrange(from as int, to as int)) is None,
        },
{
    let ghost p = q@.subrange(from as int, to as int);
    let mut i: usize = from;
    while i < to && q[i] != 0x3D
        invariant
            from <= i <= to <= q@.len(),
            p == q@.subrange(from as int, to as int),
            first_index(p.subrange(0, i - from), 0x3Du8) is None,
        decreases to - i,
    {
        assert(p.subrange(0, i + 1 - from).drop_last() =~= p.subrange(0, i - from));
        i = i + 1;
    }
    if i < to {
        proof {
            assert(p.subrange(0, i + 1 - from).drop_last() =~= p.subrange(0, i - from));
            lemma_first_index_prefix(p, i - from);
        }
        assert(p.subrange(0, i - from) =~= q@.subrange(from as int, i as int));
        assert(p.subrange(i - from + 1, p.len() as int) =~= q@.subrange(i + 1, to as int));
        let k = component_text(q, from, i);
        let v = component_text(q, i + 1, to);
        match (k, v) {
            (Some(k), Some(v)) => Some((k, Some(v))),
            _ => None,
        }
    } else {
        assert(p.subrange(0, i - from) =~= p);
        match component_text(q, from, to) {
            Some(k) => Some((k, None)),
            None => None,
        }
    }
}

/// Once `x` occurs in a prefix, its first position stays the same in every
/// longer prefix.
proof fn lemma_first_index_prefix(s: Seq<u8>, i: int)
    requires
        0 <= i < s.len(),
        s[i] == 0x3D,
        first_index(s.subrange(0, i), 0x3Du8) is None,
    ensures
        first_index(s, 0x3Du8) == Some(i),
    decreases s.len(),
{
    if s.len() == i + 1 {
        assert(s.drop_last() =~= s.subrange(0, i));
    } else {
        assert(s.drop_last().subrange(0, i) =~= s.subrange(0, i));
        lemma_first_index_prefix(s.drop_last(), i);
    }
}

/// Splits an encoded query or form body at `&`, splits each piece at its
/// first `=`, turns `+` into a space and percent-decodes key and value.
/// A piece without `=` gives a key without a value. Nothing comes back if
/// any component holds a `%` not followed by two hexadecimal digits or is
/// not valid UTF-8 after decoding. No query at all gives
/// no pairs.
pub fn get_query_pairs(query: Option<&[u8]>) -> (r: Option<Vec<(String, Option<String>)>>)
    ensures
        query is None ==> r is Some && r.unwrap()@.len() == 0,
        query is Some ==> match r {
            Some(v) => query_pairs(query.unwrap()@) == Some(pair_views(v@)),
            None => query_pairs(query.unwrap()@) is None,
        },
{
    match query {
        None => Some(Vec::new()),
        Some(q) => pairs_of(q),
    }
}

fn pairs_of(q: &[u8]) -> (r: Option<Vec<(String, Option<String>)>>)
    ensures
        match r {
            Some(v) => query_pairs(q@) == Some(pair_views(v@)),
            None => query_pairs(q@) is None,
        },
{
    let n = q.len();
    let mut parts: Vec<(String, Option<String>)> = Vec::new();
    let mut start: usize = 0;
    let mut i: usize = 0;
    while i < n
        invariant
            start <= i <= n,
            n == q@.len(),
            ({
                let sp = split_on(q@.subrange(0, i as int), 0x26u8);
                &&& sp.len() >= 1
                &&& sp.last() == q@.subrange(start as int, i as int)
                &&& pieces_pairs(sp.drop_last()) == Some(pair_views(parts@))
            }),
        decreases n - i,
    {
        let ghost sp = split_on(q@.subrange(0, i as int), 0x26u8);
        let ghost sp2 = split_on(q@.subrange(0, i + 1), 0x26u8);
        assert(q@.subrange(0, i + 1).drop_last() =~= q@.subrange(0, i as int));
        if q[i] == 0x26 {
            assert(sp2 == sp.push(Seq::<u8>::empty()));
            assert(sp2.drop_last() =~= sp);
            match decode_piece(q, start, i) {
                Some(x) => {
                    parts.push(x);
                },
                None => {
                    proof {
                        lemma_pieces_fail(sp);
                        lemma_pieces_fail_extends(q@, i as int + 1);
                    }
                    return None;
                },
            }
            proof {
                assert(pair_views(parts@) =~= pair_views(parts@.drop_last()).push(
                    pair_view(parts@.last()),
                ));
                assert(q@.subrange(i + 1, i + 1) =~= Seq::<u8>::empty());
            }
            start = i + 1;
        } else {
            proof {
                lemma_split_len(q@.subrange(0, i as int), 0x26u8);
                assert(sp2.drop_last() =~= sp.drop_last());
                assert(sp2.last() =~= q@.subrange(start as int, i + 1));
            }
        }
        i = i + 1;
    }
    assert(q@.subrange(0, n as int) =~= q@);
    match decode_piece(q, start, n) {
        Some(x) => {
            parts.push(x);
        },
        None => {
            proof {
                lemma_pieces_fail(split_on(q@, 0x26u8));
            }
            return None;
        },
    }
    assert(pair_views(parts@) =~= pair_views(parts@.drop_last()).push(pair_view(parts@.last())));
    Some(parts)
}

pub open spec fn pair_view(x: (String, Option<String>)) -> (Seq<char>, Option<Seq<char>>) {
    (x.0@, match x.1 { Some(v) => Some(v@), None => None })
}

pub open spec fn pair_views(v: Seq<(String, Option<String>)>) -> Seq<(Seq<char>, Option<Seq<char>>)> {
    v.map_values(|x: (String, Option<String>)| pair_view(x))
}

proof fn lemma_pieces_fail(sp: Seq<Seq<u8>>)
    requires
        sp.len() >= 1,
        piece_pair(sp.last()) is None,
    ensures
        pieces_pairs(sp) is None,
{
}

/// Once a piece has failed, every longer prefix fails as well.
proof fn lemma_pieces_fail_extends(q: Seq<u8>, i: int)
    requires
        0 <= i <= q.len(),
        pieces_pairs(split_on(q.subrange(0, i), 0x26u8).drop_last()) is None,
    ensures
        pieces_pairs(split_on(q, 0x26u8)) is None,
    decreases q.len() - i,
{
    let sp = split_on(q.subrange(0, i), 0x26u8);
    lemma_split_len(q.subrange(0, i), 0x26u8);
    lemma_prefix_none(sp.drop_last(), sp);
    if i == q.len() {
        assert(q.subrange(0, i) =~= q);
        lemma_prefix_none(sp.drop_last(), sp);
    } else {
        let sp2 = split_on(q.subrange(0, i + 1), 0x26u8);
        assert(q.subrange(0, i + 1).drop_last() =~= q.subrange(0, i));
        if q[i] == 0x26 {
            assert(sp2.drop_last() == sp);
        } else {
            assert(sp2.drop_last() =~= sp.drop_last());
        }
        lemma_pieces_fail_extends(q, i + 1);
    }
}

/// A failure in a prefix of the pieces is a failure of them all.
proof fn lemma_prefix_none(a: Seq<Seq<u8>>, b: Seq<Seq<u8>>)
    requires
        a.len() <= b.len(),
        a == b.subrange(0, a.len() as int),
        pieces_pairs(a) is None,
    ensures
        pieces_pairs(b) is None,
    decreases b.len(),
{
    if b.len() > a.len() {
        assert(b.drop_last().subrange(0, a.len() as int) =~= a);
        lemma_prefix_none(a, b.drop_last());
    } else {
        assert(a =~= b);
    }
}

/// Decodes an encoded query or form body into the values of each key, in
/// order; keys given without a value record nothing. Nothing comes back if
/// any component fails to decode.
pub fn parse_form(body: &[u8]) -> (r: Option<ValueMultiset>)
    ensures
        match r {
            Some(m) => m.wf() && query_pairs(body@) is Some && m@ == grouped(valued(query_pairs(body@).unwrap())),
            None => query_pairs(body@) is None,
        },
{
    let pairs = match get_query_pairs(Some(body)) {
        Some(p) => p,
        None => {
            return None;
        },
    };
    let ghost p = pair_views(pairs@);
    let mut m = ValueMultiset::new();
    let mut i: usize = 0;
    while i < pairs.len()
        invariant
            m.wf(),
            i <= pairs@.len(),
            p == pair_views(pairs@),
            m@ == grouped(valued(p.subrange(0, i as int))),
        decreases pairs@.len() - i,
    {
        let ghost pre = p.subrange(0, i as int);
        assert(p.subrange(0, i + 1).drop_last() =~= pre);
        assert(p.subrange(0, i + 1).last() == pair_view(pairs@[i as int]));
        match &pairs[i].1 {
            Some(v) => {
                m.insert(pairs[i].0.clone(), v.clone());
            },
            None => {},
        }
        proof {
            let v = valued(pre);
            if pairs@[i as int].1 is Some {
                assert(valued(p.subrange(0, i + 1)) == v + seq![(pairs@[i as int].0@, pairs@[i as int].1.unwrap()@)]);
                assert((v + seq![(pairs@[i as int].0@, pairs@[i as int].1.unwrap()@)]).drop_last() =~= v);
            }
        }
        i = i + 1;
    }
    assert(p.subrange(0, pairs@.len() as int) =~= p);
    Some(m)
}

} // verus!

//! The `http` crate's header map, as the conversions of `HeaderMap` see it
//!
//! An `http::HeaderMap` is a multi-map from lowercase header names to byte
//! values. Its contents are named here as the sequence of (name, value)
//! pairs its iterator yields; what each call does to them is stated over
//! the values a name holds, in order.
use vstd::prelude::*;
use crate::text::{is_ascii_alnum, ascii_lower, push_char, lowercase, trim};
use crate::headers::{
    HeaderMap, HeaderEntry, is_key, valid_header_name, valid_header_value, valid_value_chars,
    valid_value_char, values_of,
};
use crate::assoc::{to_map, distinct_keys, lemma_to_map_at, lemma_to_map_dom};
use crate::text::all_ascii;
use http::HeaderMap as HttpHeaderMap;
use http::HeaderValue as HttpHeaderValue;

verus! {

#[verifier::external_type_specification]
#[verifier::external_body]
#[verifier::reject_recursive_types(T)]
pub struct ExHttpHeaderMap<T>(HttpHeaderMap<T>);

#[verifier::external_type_specification]
#[verifier::external_body]
pub struct ExHttpHeaderValue(HttpHeaderValue);

/// The headers an `http::HeaderMap` holds, in the order its iterator yields
/// them: each a name, as `HeaderName::as_str` gives it, and the bytes of one
/// value.
pub uninterp spec fn http_headers(m: HttpHeaderMap) -> Seq<(Seq<char>, Seq<u8>)>;

/// A character `http` accepts in a header name: an ASCII letter or digit,
/// or one of `!#$%&'*+-.^_`|~`.
pub open spec fn http_name_char(c: char) -> bool {
    is_ascii_alnum(c) || c == '!' || c == '#' || c == '$' || c == '%' || c == '&' || c == '\''
        || c == '*' || c == '+' || c == '-' || c == '.' || c == '^' || c == '_' || c == '`' || c
        == '|' || c == '~'
}

/// A name `http` accepts: 1 to 65535 allowed characters.
pub open spec fn http_name_ok(s: Seq<char>) -> bool {
    1 <= s.len() <= 65535 && forall|i: int| 0 <= i < s.len() ==> http_name_char(#[trigger] s[i])
}

/// The name `http` stores for an accepted name: its letters lowered.
pub open spec fn http_name(s: Seq<char>) -> Seq<char> {
    s.map_values(|c: char| ascii_lower(c))
}

/// A character `http` accepts in a header value: a tab, or any character
/// from the space up other than DEL.
pub open spec fn http_value_char(c: char) -> bool {
    c == '\t' || (' ' <= c && c != '\u{7f}')
}

/// A value `http` accepts.
pub open spec fn http_value_ok(s: Seq<char>) -> bool {
    forall|i: int| 0 <= i < s.len() ==> http_value_char(#[trigger] s[i])
}

/// The values the headers `hs` hold under `name`, in order.
pub open spec fn http_values(hs: Seq<(Seq<char>, Seq<u8>)>, name: Seq<char>) -> Seq<Seq<u8>>
    decreases hs.len(),
{
    if hs.len() == 0 {
        Seq::<Seq<u8>>::empty()
    } else if hs.last().0 == name {
        http_values(hs.drop_last(), name).push(hs.last().1)
    } else {
        http_values(hs.drop_last(), name)
    }
}

/// Which step of adding a header to an `http::HeaderMap` failed.
#[derive(Debug)]
pub enum HttpHeaderFault {
    /// `HeaderName::from_bytes` refused the name
    Name,
    /// `HeaderValue::from_str` refused the value
    Value,
    /// `HeaderMap::try_append` found the map full
    Capacity,
}

/// `http::HeaderMap::with_capacity`: an empty map. It panics when the
/// capacity exceeds what a map can hold (more than 24576 headers), which
/// `requires` leaves out.
#[verifier::external_body]
pub(crate) fn http_with_capacity(capacity: usize) -> (r: HttpHeaderMap)
    requires
        capacity <= 24576,
    ensures
        http_headers(r) == Seq::<(Seq<char>, Seq<u8>)>::empty(),
{
    HttpHeaderMap::with_capacity(capacity)
}

/// `http::HeaderMap::len`: the number of values the map holds.
#[verifier::external_body]
pub(crate) fn http_len(m: &HttpHeaderMap) -> (r: usize)
    ensures
        r == http_headers(*m).len(),
{
    m.len()
}

/// `http::HeaderMap::iter`, each pair handed out as the name's text
/// (`HeaderName::as_str`) and the value's bytes (`HeaderValue::as_bytes`).
#[verifier::external_body]
pub(crate) fn http_pairs(m: &HttpHeaderMap) -> (r: Vec<(String, Vec<u8>)>)
    ensures
        r@.len() == http_headers(*m).len(),
        forall|i: int|
            0 <= i < r@.len() ==> (#[trigger] r@[i]).0@ == http_headers(*m)[i].0 && r@[i].1@
                == http_headers(*m)[i].1,
{
    m.iter().map(|(k, v)| (k.as_str().to_string(), v.as_bytes().to_vec())).collect()
}

/// Adds a header to an `http::HeaderMap`: `http::header::HeaderName::from_bytes`
/// on the name's bytes, `http::header::HeaderValue::from_str` on the value,
/// then `http::HeaderMap::try_append`, whose `bool` tells whether the name
/// was there before.
///
/// The name is refused unless it is 1 to 65535 token characters, and then
/// stored with its letters lowered; the value is refused when it holds a
/// control character other than tab, and is stored as its UTF-8 bytes. The
/// value goes after the values the name already holds, and nothing else
/// changes; on a refusal the map is unchanged. `try_append` reports a full
/// map only when it would have to grow its table beyond 32768 slots, which
/// cannot happen while the map holds fewer than 6554 names (here: values).
#[verifier::external_body]
pub(crate) fn http_try_append(map: &mut HttpHeaderMap, name: &str, value: &str) -> (r: Result<
    bool,
    HttpHeaderFault,
>)
    ensures
        !http_name_ok(name@) ==> r matches Err(HttpHeaderFault::Name),
        http_name_ok(name@) && !http_value_ok(value@) ==> r matches Err(HttpHeaderFault::Value),
        http_name_ok(name@) && http_value_ok(value@) && http_headers(*old(map)).len() < 6554
            ==> r is Ok,
        r matches Err(HttpHeaderFault::Name) ==> !http_name_ok(name@),
        r matches Err(HttpHeaderFault::Value) ==> http_name_ok(name@) && !http_value_ok(value@),
        r matches Err(HttpHeaderFault::Capacity) ==> http_name_ok(name@) && http_value_ok(value@)
            && http_headers(*old(map)).len() >= 6554,
        r is Err ==> http_headers(*final(map)) == http_headers(*old(map)),
        r matches Ok(existed) ==> {
            &&& existed == (http_values(http_headers(*old(map)), http_name(name@)).len() > 0)
            &&& http_headers(*final(map)).len() == http_headers(*old(map)).len() + 1
            &&& forall|n: Seq<char>|
                #[trigger] http_values(http_headers(*final(map)), n) == if n == http_name(
                    name@,
                ) {
                    http_values(http_headers(*old(map)), n).push(
                        vstd::utf8::encode_utf8(value@),
                    )
                } else {
                    http_values(http_headers(*old(map)), n)
                }
        },
{
    let n = match http::header::HeaderName::from_bytes(name.as_bytes()) {
        Ok(n) => n,
        Err(_) => return Err(HttpHeaderFault::Name),
    };
    let v = match http::header::HeaderValue::from_str(value) {
        Ok(v) => v,
        Err(_) => return Err(HttpHeaderFault::Value),
    };
    match map.try_append(n, v) {
        Ok(existed) => Ok(existed),
        Err(_) => Err(HttpHeaderFault::Capacity),
    }
}

/// A byte `HeaderValue::to_str` accepts: visible ASCII or a tab.
pub open spec fn visible_ascii(b: u8) -> bool {
    (32 <= b && b < 127) || b == 9
}

/// The text `HeaderValue::to_str` reads from a value's bytes, with the
/// empty text in place of a refusal.
pub open spec fn value_text(bytes: Seq<u8>) -> Seq<char> {
    if forall|i: int| 0 <= i < bytes.len() ==> visible_ascii(#[trigger] bytes[i]) {
        bytes.map_values(|b: u8| b as char)
    } else {
        Seq::<char>::empty()
    }
}

/// The text of a value's bytes (see `value_text`).
pub(crate) fn header_text(bytes: &[u8]) -> (r: String)
    ensures
        r@ == value_text(bytes@),
{
    let mut i: usize = 0;
    while i < bytes.len()
        invariant
            i <= bytes@.len(),
            forall|j: int| 0 <= j < i ==> visible_ascii(#[trigger] bytes@[j]),
        decreases bytes@.len() - i,
    {
        let b = bytes[i];
        if !((32 <= b && b < 127) || b == 9) {
            assert(!visible_ascii(bytes@[i as int]));
            return String::new();
        }
        i = i + 1;
    }
    let mut s = String::new();
    let mut k: usize = 0;
    while k < bytes.len()
        invariant
            k <= bytes@.len(),
            s@ == bytes@.subrange(0, k as int).map_values(|b: u8| b as char),
        decreases bytes@.len() - k,
    {
        let ghost prev = s@;
        push_char(&mut s, bytes[k] as char);
        assert(bytes@.subrange(0, k + 1).map_values(|b: u8| b as char) =~= prev.push(
            bytes@[k as int] as char,
        ));
        k = k + 1;
    }
    assert(bytes@.subrange(0, bytes@.len() as int) =~= bytes@);
    s
}

/// The map that appending the headers `hs` one by one to an empty map
/// builds, skipping those whose name or value text `HeaderMap::append`
/// refuses.
pub open spec fn absorb(hs: Seq<(Seq<char>, Seq<u8>)>) -> Map<Seq<char>, Seq<Seq<char>>>
    decreases hs.len(),
{
    if hs.len() == 0 {
        Map::<Seq<char>, Seq<Seq<char>>>::empty()
    } else {
        let m = absorb(hs.drop_last());
        let n = hs.last().0;
        let t = value_text(hs.last().1);
        if valid_header_name(n) && valid_header_value(t) {
            m.insert(lowercase(n), values_of(m, lowercase(n)).push(trim(t)))
        } else {
            m
        }
    }
}

/// The values, as UTF-8 bytes, that entries carry under the `http` name `n`,
/// in order.
pub open spec fn carried(es: Seq<HeaderEntry>, n: Seq<char>) -> Seq<Seq<u8>>
    decreases es.len(),
{
    if es.len() == 0 {
        Seq::<Seq<u8>>::empty()
    } else if http_name(es.last().0) == n {
        carried(es.drop_last(), n) + es.last().1.map_values(
            |v: Seq<char>| vstd::utf8::encode_utf8(v),
        )
    } else {
        carried(es.drop_last(), n)
    }
}

/// The number of values the entries hold.
pub open spec fn value_count(es: Seq<HeaderEntry>) -> nat
    decreases es.len(),
{
    if es.len() == 0 {
        0
    } else {
        value_count(es.drop_last()) + es.last().1.len()
    }
}

/// A prefix of the entries holds no more values than all of them.
pub proof fn lemma_value_count_prefix(es: Seq<HeaderEntry>, k: int)
    requires
        0 <= k <= es.len(),
    ensures
        value_count(es.take(k)) <= value_count(es),
        k < es.len() ==> value_count(es.take(k + 1)) == value_count(es.take(k)) + es[k].1.len(),
    decreases es.len(),
{
    if k < es.len() {
        assert(es.take(k + 1).drop_last() =~= es.take(k));
        assert(es.drop_last().take(k) =~= es.take(k));
        lemma_value_count_prefix(es.drop_last(), k);
        if k + 1 < es.len() {
            assert(es.drop_last().take(k + 1) =~= es.take(k + 1));
        }
    } else {
        assert(es.take(k) =~= es);
    }
}

/// The entry at `i` is the first whose name `http` refuses.
pub open spec fn first_bad_name(es: Seq<HeaderEntry>, i: int) -> bool {
    &&& 0 <= i < es.len()
    &&& !http_name_ok(es[i].0)
    &&& forall|j: int| 0 <= j < i ==> http_name_ok(#[trigger] es[j].0)
}

/// The message of the error for a name `http` refuses.
pub open spec fn http_name_error(s: Seq<char>) -> Seq<char> {
    "Invalid header name '"@ + s + "': invalid HTTP header name"@
}

/// The message of the error for an `http` map that is full.
pub open spec fn http_full_error() -> Seq<char> {
    "Invalid header map: max size reached"@
}

/// A pair's value is among the values its name holds.
proof fn lemma_pair_in_values(hs: Seq<(Seq<char>, Seq<u8>)>, i: int)
    requires
        0 <= i < hs.len(),
    ensures
        http_values(hs, hs[i].0).contains(hs[i].1),
    decreases hs.len(),
{
    let n = hs[i].0;
    if i == hs.len() - 1 {
        assert(http_values(hs, n).last() == hs[i].1);
    } else {
        lemma_pair_in_values(hs.drop_last(), i);
        assert(hs.drop_last()[i] == hs[i]);
        let prev = http_values(hs.drop_last(), n);
        let k = choose|k: int| 0 <= k < prev.len() && prev[k] == hs[i].1;
        assert(http_values(hs, n)[k] == hs[i].1);
    }
}

/// What entries with distinct keys, each its own `http` name, carry under a
/// name: the values of that key, encoded.
proof fn lemma_carried_map(es: Seq<HeaderEntry>, n: Seq<char>)
    requires
        distinct_keys(es),
        forall|j: int| 0 <= j < es.len() ==> http_name(#[trigger] es[j].0) == es[j].0,
    ensures
        carried(es, n) == values_of(to_map(es), n).map_values(
            |v: Seq<char>| vstd::utf8::encode_utf8(v),
        ),
    decreases es.len(),
{
    let enc = |v: Seq<char>| vstd::utf8::encode_utf8(v);
    if es.len() == 0 {
        assert(values_of(to_map(es), n).map_values(enc) =~= Seq::<Seq<u8>>::empty());
    } else {
        let p = es.drop_last();
        assert(distinct_keys(p)) by {
            assert forall|a: int, b: int|
                0 <= a < p.len() && 0 <= b < p.len() && a != b implies p[a].0 != p[b].0 by {
                assert(p[a] == es[a] && p[b] == es[b]);
            }
        }
        assert forall|j: int| 0 <= j < p.len() implies http_name(#[trigger] p[j].0) == p[j].0 by {
            assert(p[j] == es[j]);
        }
        lemma_carried_map(p, n);
        assert(http_name(es.last().0) == es.last().0);
        if es.last().0 == n {
            lemma_to_map_dom(p, n);
            if to_map(p).contains_key(n) {
                let i = choose|i: int| 0 <= i < p.len() && p[i].0 == n;
                assert(es[i].0 == es[es.len() - 1].0);
            }
            assert(carried(p, n) =~= Seq::<Seq<u8>>::empty());
            assert(carried(es, n) =~= es.last().1.map_values(enc));
        }
    }
}

/// Appending clean pairs builds the map of their values, each read as
/// text: a pair is clean when its name is a valid lowercase header name and
/// its value text is a valid, already trimmed header value.
proof fn lemma_absorb_clean(hs: Seq<(Seq<char>, Seq<u8>)>)
    requires
        forall|i: int|
            0 <= i < hs.len() ==> {
                &&& valid_header_name(#[trigger] hs[i].0)
                &&& lowercase(hs[i].0) == hs[i].0
                &&& valid_header_value(value_text(hs[i].1))
                &&& trim(value_text(hs[i].1)) == value_text(hs[i].1)
            },
    ensures
        forall|k: Seq<char>| #[trigger]
            absorb(hs).contains_key(k) <==> http_values(hs, k).len() > 0,
        forall|k: Seq<char>|
            #[trigger] values_of(absorb(hs), k) == http_values(hs, k).map_values(
                |v: Seq<u8>| value_text(v),
            ),
    decreases hs.len(),
{
    let text = |v: Seq<u8>| value_text(v);
    if hs.len() == 0 {
        assert forall|k: Seq<char>| #[trigger]
            values_of(absorb(hs), k) == http_values(hs, k).map_values(text) by {
            assert(http_values(hs, k).map_values(text) =~= Seq::<Seq<char>>::empty());
        }
    } else {
        let p = hs.drop_last();
        assert forall|i: int|
            0 <= i < p.len() implies {
                &&& valid_header_name(#[trigger] p[i].0)
                &&& lowercase(p[i].0) == p[i].0
                &&& valid_header_value(value_text(p[i].1))
                &&& trim(value_text(p[i].1)) == value_text(p[i].1)
            } by {
            assert(p[i] == hs[i]);
        }
        lemma_absorb_clean(p);
        let last = hs[hs.len() - 1];
        assert(last == hs.last());
        let n = last.0;
        let m = absorb(p);
        assert(absorb(hs) == m.insert(n, values_of(m, n).push(value_text(last.1))));
        assert forall|k: Seq<char>| #[trigger]
            absorb(hs).contains_key(k) <==> http_values(hs, k).len() > 0 by {
            if k != n {
                assert(http_values(hs, k) == http_values(p, k));
            }
        }
        assert forall|k: Seq<char>| #[trigger]
            values_of(absorb(hs), k) == http_values(hs, k).map_values(text) by {
            if k == n {
                assert(values_of(m, n) == http_values(p, n).map_values(text));
                assert(http_values(hs, n) == http_values(p, n).push(last.1));
                assert(http_values(p, n).push(last.1).map_values(text) =~= http_values(
                    p,
                    n,
                ).map_values(text).push(value_text(last.1)));
            } else {
                assert(http_values(hs, k) == http_values(p, k));
                assert(values_of(m, k) == http_values(p, k).map_values(text));
            }
        }
    }
}

/// A printable ASCII text, encoded as UTF-8 and read back as a value's
/// text, is the same text.
proof fn lemma_text_of_encoded(s: Seq<char>)
    requires
        valid_value_chars(s),
    ensures
        value_text(vstd::utf8::encode_utf8(s)) == s,
{
    assert(vstd::utf8::is_ascii_chars(s)) by {
        assert forall|i: int| 0 <= i < s.len() implies '\0' <= #[trigger] s[i] <= '\u{7f}' by {
            assert(valid_value_char(s[i]));
        }
    }
    vstd::utf8::is_ascii_chars_encode_utf8(s);
    let b = vstd::utf8::encode_utf8(s);
    assert forall|i: int| 0 <= i < b.len() implies visible_ascii(#[trigger] b[i]) by {
        assert(valid_value_char(s[i]));
        assert(s[i] as u8 == b[i]);
    }
    assert forall|i: int| 0 <= i < b.len() implies (#[trigger] b[i]) as char == s[i] by {
        assert(valid_value_char(s[i]));
        assert(s[i] as u8 == b[i]);
    }
    assert(b.map_values(|x: u8| x as char) =~= s);
}

/// Converting a map to `http` headers and back gives the same map, for a
/// map whose values carry no surrounding whitespace (as every map built by
/// `insert` and `append`): `h` holds what `to_http_header_map` puts in it,
/// and `absorb` is what `from_http_header_map` builds.
pub proof fn law_http_roundtrip(m: HeaderMap, h: HttpHeaderMap)
    requires
        m.wf(),
        forall|k: Seq<char>, j: int|
            m@.contains_key(k) && 0 <= j < m@[k].len() ==> trim(#[trigger] m@[k][j]) == m@[k][j],
        forall|n: Seq<char>|
            #[trigger] http_values(http_headers(h), n) == carried(m.spec_entries(), n),
    ensures
        absorb(http_headers(h)) == m@,
{
    let es = m.spec_entries();
    let hs = http_headers(h);
    let enc = |v: Seq<char>| vstd::utf8::encode_utf8(v);
    let text = |v: Seq<u8>| value_text(v);
    assert forall|k: Seq<char>| #[trigger] m@.contains_key(k) implies valid_header_name(k)
        && lowercase(k) == k by {
        lemma_to_map_dom(es, k);
        let i = choose|i: int| 0 <= i < es.len() && es[i].0 == k;
        assert(is_key(es[i].0));
    }
    assert forall|j: int| 0 <= j < es.len() implies http_name(#[trigger] es[j].0) == es[j].0 by {
        assert(is_key(es[j].0));
        assert(valid_header_name(es[j].0));
        assert(all_ascii(es[j].0));
        assert(http_name(es[j].0) =~= lowercase(es[j].0));
    }
    // The values of each key, as the map and as `http` holds them.
    assert forall|k: Seq<char>| #[trigger] http_values(hs, k) == values_of(m@, k).map_values(enc) by {
        lemma_carried_map(es, k);
    }
    // Each stored value is printable ASCII, and reads back as itself.
    assert forall|k: Seq<char>, j: int|
        m@.contains_key(k) && 0 <= j < m@[k].len() implies valid_value_chars(#[trigger] m@[k][j])
        && value_text(vstd::utf8::encode_utf8(m@[k][j])) == m@[k][j] by {
        lemma_to_map_dom(es, k);
        let i = choose|i: int| 0 <= i < es.len() && es[i].0 == k;
        lemma_to_map_at(es, i);
        assert(valid_value_chars(es[i].1[j]));
        lemma_text_of_encoded(m@[k][j]);
    }
    // Every pair of `h` is clean.
    assert forall|i: int|
        0 <= i < hs.len() implies {
            &&& valid_header_name(#[trigger] hs[i].0)
            &&& lowercase(hs[i].0) == hs[i].0
            &&& valid_header_value(value_text(hs[i].1))
            &&& trim(value_text(hs[i].1)) == value_text(hs[i].1)
        } by {
        let n = hs[i].0;
        lemma_pair_in_values(hs, i);
        let vals = values_of(m@, n).map_values(enc);
        assert(http_values(hs, n) == vals);
        let k = choose|k: int| 0 <= k < vals.len() && vals[k] == hs[i].1;
        assert(values_of(m@, n).len() > 0);
        assert(m@.contains_key(n));
        let s = m@[n][k];
        assert(hs[i].1 == vstd::utf8::encode_utf8(s));
        assert(value_text(hs[i].1) == s);
        assert(trim(s) == s);
    }
    lemma_absorb_clean(hs);
    assert forall|k: Seq<char>| #[trigger] absorb(hs).contains_key(k) <==> m@.contains_key(k) by {
        assert(http_values(hs, k) == values_of(m@, k).map_values(enc));
        if m@.contains_key(k) {
            lemma_to_map_dom(es, k);
            let i = choose|i: int| 0 <= i < es.len() && es[i].0 == k;
            lemma_to_map_at(es, i);
            assert(es[i].1.len() > 0);
        }
    }
    assert forall|k: Seq<char>| #[trigger] absorb(hs).contains_key(k) implies absorb(hs)[k]
        == m@[k] by {
        assert(values_of(absorb(hs), k) == http_values(hs, k).map_values(text));
        assert(http_values(hs, k) == values_of(m@, k).map_values(enc));
        assert(values_of(m@, k).map_values(enc).map_values(text) =~= m@[k]);
    }
    assert(absorb(hs) =~= m@);
}

} // verus!

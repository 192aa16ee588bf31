//! Custom HTTP headers for WebSocket handshakes
//!
//! A multi-map from header names (compared case-insensitively) to their
//! values, with validated names and values and accessors for common headers.
use vstd::prelude::*;
use crate::error::{Error, Result};
use crate::http_map::{
    HttpHeaderFault, http_headers, http_name_ok, http_name, http_values, http_value_ok,
    http_value_char, http_with_capacity, http_len, http_pairs, http_try_append, header_text,
    absorb, carried, value_count, lemma_value_count_prefix, first_bad_name, http_name_error, http_full_error,
};
use http::HeaderMap as HttpHeaderMap;
use crate::assoc::{
    to_map, distinct_keys, lemma_to_map_at, lemma_to_map_dom, lemma_to_map_equal,
    lemma_to_map_update, lemma_to_map_len,
};
use vstd::std_specs::iter::IteratorSpec;
use crate::text::{
    TextArg, is_ascii_alnum, trim, trim_str, str_eq, lowercase, str_to_lowercase,
    all_ascii, ascii_lower,
    decimal, push_decimal, hex2, push_hex2,
};

verus! {

broadcast use vstd::std_specs::vec::axiom_spec_into_iter;

/// A character allowed in a header name: an ASCII letter or digit, a
/// hyphen or `!`.
pub open spec fn valid_name_char(c: char) -> bool {
    is_ascii_alnum(c) || c == '-' || c == '!'
}

/// A valid header name: non-empty, made of allowed characters.
pub open spec fn valid_header_name(s: Seq<char>) -> bool {
    s.len() > 0 && forall|i: int| 0 <= i < s.len() ==> valid_name_char(#[trigger] s[i])
}

/// The message of the error for an invalid header name.
pub open spec fn name_error_message(s: Seq<char>) -> Seq<char> {
    if s.len() == 0 {
        "Header name cannot be empty"@
    } else {
        "Invalid header name '"@ + s + "': contains invalid characters"@
    }
}

/// An ASCII control character (0x00-0x1F or 0x7F).
pub open spec fn is_ascii_control_char(c: char) -> bool {
    c < ' ' || c == '\u{7f}'
}

/// A character allowed in a header value: printable ASCII (0x20-0x7E).
pub open spec fn valid_value_char(c: char) -> bool {
    ' ' <= c && c <= '~'
}

/// Every character of `s` is allowed in a header value.
pub open spec fn valid_value_chars(s: Seq<char>) -> bool {
    forall|i: int| 0 <= i < s.len() ==> valid_value_char(#[trigger] s[i])
}

/// A raw header value is accepted when its trimmed text holds allowed characters only.
pub open spec fn valid_header_value(raw: Seq<char>) -> bool {
    valid_value_chars(trim(raw))
}

/// The message of the error for a trimmed value `t` whose first disallowed
/// character stands at position `i`.
pub open spec fn value_error_message(t: Seq<char>, i: int) -> Seq<char> {
    if is_ascii_control_char(t[i]) {
        "Invalid header value at position "@ + decimal(i as nat) + ": contains control character 0x"@
            + hex2(t[i] as nat)
    } else {
        "Invalid header value at position "@ + decimal(i as nat) + ": contains non-ASCII character"@
    }
}

/// The error that `HeaderValue::new` reports for a raw value it rejects:
/// the one of the first disallowed character of the trimmed text.
pub open spec fn value_error_is(raw: Seq<char>, m: Seq<char>) -> bool {
    exists|i: int|
        0 <= i < trim(raw).len() && !valid_value_char(#[trigger] trim(raw)[i]) && (forall|j: int|
            0 <= j < i ==> valid_value_char(trim(raw)[j])) && m == value_error_message(trim(raw), i)
}

/// A case-insensitive string wrapper for header names
#[derive(Debug, Clone, PartialEq, Eq, Hash)]
pub struct HeaderName(String);

impl View for HeaderName {
    type V = Seq<char>;

    closed spec fn view(&self) -> Seq<char> {
        self.0@
    }
}

/// Validates a header name, as `HeaderName::new` does.
fn check_name(name_str: &str) -> (r: Result<()>)
    ensures
        r is Ok <==> valid_header_name(name_str@),
        r matches Err(e) ==> e matches Error::InvalidState(m) && m@ == name_error_message(name_str@),
{
    let n = name_str.unicode_len();
    if n == 0 {
        return Err(Error::invalid_state("Header name cannot be empty"));
    }
    let mut i: usize = 0;
    while i < n
        invariant
            n == name_str@.len(),
            i <= n,
            forall|j: int| 0 <= j < i ==> valid_name_char(#[trigger] name_str@[j]),
        decreases n - i,
    {
        let c = name_str.get_char(i);
        if !(('a' <= c && c <= 'z') || ('A' <= c && c <= 'Z') || ('0' <= c && c <= '9') || c
            == '-' || c == '!') {
            let mut m = String::from_str("Invalid header name '");
            m.append(name_str);
            m.append("': contains invalid characters");
            return Err(Error::InvalidState(m));
        }
        i = i + 1;
    }
    // Control characters are rejected too; none of them is alphanumeric, so
    // a name that passed the check above holds none.
    let mut k: usize = 0;
    while k < n
        invariant
            n == name_str@.len(),
            k <= n,
            valid_header_name(name_str@),
        decreases n - k,
    {
        let c = name_str.get_char(k);
        if c < ' ' || c == '\u{7f}' {
            assert(valid_name_char(name_str@[k as int]));
            let mut m = String::from_str("Invalid header name '");
            m.append(name_str);
            m.append("': contains control characters");
            return Err(Error::InvalidState(m));
        }
        k = k + 1;
    }
    Ok(())
}

impl HeaderName {
    /// Create a new header name
    ///
    /// Fails if the name is empty or holds a character that is not an
    /// ASCII letter or digit, `-` or `!`.
    pub fn new(name: impl TextArg) -> (r: Result<Self>)
        ensures
            r is Ok <==> valid_header_name(name.text_view()),
            r matches Ok(h) ==> h@ == name.text_view(),
            r matches Err(e) ==> e matches Error::InvalidState(m) && m@ == name_error_message(
                name.text_view(),
            ),
    {
        let name_str = name.as_text();
        check_name(name_str)?;
        Ok(HeaderName(name_str.to_owned()))
    }

    /// Get the header name as a string slice
    pub fn as_str(&self) -> (r: &str)
        ensures
            r@ == self@,
    {
        self.0.as_str()
    }

    /// Convert to owned string
    pub fn into_string(self) -> (r: String)
        ensures
            r@ == self@,
    {
        self.0
    }
}

/// A validated header value: printable ASCII without leading or trailing whitespace
#[derive(Debug, PartialEq, Eq)]
pub struct HeaderValue(String);

impl Clone for HeaderValue {
    fn clone(&self) -> (r: Self)
        ensures
            r@ == self@,
    {
        proof {
            use_type_invariant(self);
        }
        HeaderValue(self.0.clone())
    }
}

impl View for HeaderValue {
    type V = Seq<char>;

    closed spec fn view(&self) -> Seq<char> {
        self.0@
    }
}

/// Checks the characters of a trimmed value, as `HeaderValue::new` does.
fn check_value_chars(t: &str) -> (r: Result<()>)
    ensures
        r is Ok <==> valid_value_chars(t@),
        r matches Err(e) ==> e matches Error::InvalidState(m) && exists|i: int|
            0 <= i < t@.len() && !valid_value_char(#[trigger] t@[i]) && (forall|j: int|
                0 <= j < i ==> valid_value_char(t@[j])) && m@ == value_error_message(t@, i),
{
    let n = t.unicode_len();
    let mut i: usize = 0;
    while i < n
        invariant
            n == t@.len(),
            i <= n,
            forall|j: int| 0 <= j < i ==> valid_value_char(#[trigger] t@[j]),
        decreases n - i,
    {
        let c = t.get_char(i);
        if (c < ' ' || c == '\u{7f}') && c != ' ' {
            let code = c as u32;
            let mut m = String::from_str("Invalid header value at position ");
            push_decimal(&mut m, i as u128);
            m.append(": contains control character 0x");
            push_hex2(&mut m, code);
            assert(m@ =~= value_error_message(t@, i as int));
            return Err(Error::InvalidState(m));
        }
        if c > '\u{7f}' && c != ' ' {
            let mut m = String::from_str("Invalid header value at position ");
            push_decimal(&mut m, i as u128);
            m.append(": contains non-ASCII character");
            assert(m@ =~= value_error_message(t@, i as int));
            return Err(Error::InvalidState(m));
        }
        i = i + 1;
    }
    Ok(())
}

impl HeaderValue {
    #[verifier::type_invariant]
    spec fn inv(self) -> bool {
        valid_value_chars(self.0@)
    }

    /// Create a new header value
    ///
    /// The value is trimmed of leading and trailing whitespace; it fails if
    /// the rest holds a control or non-ASCII character.
    pub fn new(value: impl TextArg) -> (r: Result<Self>)
        ensures
            r is Ok <==> valid_header_value(value.text_view()),
            r matches Ok(h) ==> h@ == trim(value.text_view()),
            r matches Err(e) ==> e matches Error::InvalidState(m) && value_error_is(
                value.text_view(),
                m@,
            ),
    {
        let value_str = trim_str(value.as_text());
        check_value_chars(value_str.as_str())?;
        Ok(HeaderValue(value_str))
    }

    /// Get the header value as a string slice
    pub fn as_str(&self) -> (r: &str)
        ensures
            r@ == self@,
    {
        self.0.as_str()
    }

    /// Convert to owned string
    pub fn into_string(self) -> (r: String)
        ensures
            r@ == self@,
    {
        self.0
    }

    /// Check if the value is empty
    pub fn is_empty(&self) -> (r: bool)
        ensures
            r == (self@.len() == 0),
    {
        self.0.as_str().unicode_len() == 0
    }

    /// Get the length of the value in bytes. A value is ASCII, so this is
    /// also its number of characters.
    pub fn len(&self) -> (r: usize)
        ensures
            r == self@.len(),
    {
        self.0.as_str().unicode_len()
    }
}

/// A key of the map: a valid name that is its own lowercase.
pub open spec fn is_key(k: Seq<char>) -> bool {
    valid_header_name(k) && lowercase(k) == k
}

/// The key of a valid name is a key.
pub proof fn lemma_key_of_name(n: Seq<char>)
    requires
        valid_header_name(n),
    ensures
        is_key(lowercase(n)),
{
    assert(all_ascii(n));
    let l = lowercase(n);
    assert(l == n.map_values(|c: char| ascii_lower(c)));
    assert forall|i: int| 0 <= i < l.len() implies valid_name_char(#[trigger] l[i]) && l[i]
        <= '\u{7f}' && ascii_lower(l[i]) == l[i] by {
        assert(valid_name_char(n[i]));
    }
    assert(all_ascii(l));
    assert(lowercase(l) =~= l);
}

/// One header: its key (the lowercased name) and its values in order.
pub type HeaderEntry = (Seq<char>, Seq<Seq<char>>);

/// The entries of the map as plain values.
pub open spec fn entries_view(es: Seq<(String, Vec<String>)>) -> Seq<HeaderEntry> {
    es.map_values(|e: (String, Vec<String>)| (e.0@, e.1@.map_values(|v: String| v@)))
}

/// A multi-map for HTTP headers
///
/// Header names are compared case-insensitively: each is stored under its
/// lowercase key. A name can have several values, kept in order.
#[derive(Debug, Clone)]
pub struct HeaderMap {
    entries: Vec<(String, Vec<String>)>,
}

impl View for HeaderMap {
    type V = Map<Seq<char>, Seq<Seq<char>>>;

    closed spec fn view(&self) -> Map<Seq<char>, Seq<Seq<char>>> {
        to_map(entries_view(self.entries@))
    }
}

/// The values a header holds in the map, or none.
pub open spec fn values_of(m: Map<Seq<char>, Seq<Seq<char>>>, k: Seq<char>) -> Seq<Seq<char>> {
    if m.contains_key(k) {
        m[k]
    } else {
        Seq::<Seq<char>>::empty()
    }
}

/// The first value of a header, if the map holds it.
pub open spec fn first_value(m: Map<Seq<char>, Seq<Seq<char>>>, k: Seq<char>) -> Option<Seq<char>> {
    if m.contains_key(k) {
        Some(m[k][0])
    } else {
        None
    }
}

/// A borrowed string option as plain characters.
pub open spec fn opt_str_view(o: Option<&str>) -> Option<Seq<char>> {
    match o {
        Some(s) => Some(s@),
        None => None,
    }
}

/// The map after merging `other` into `m`: each key of `other` gets its
/// values appended after the values `m` holds for it.
pub open spec fn merged(
    m: Map<Seq<char>, Seq<Seq<char>>>,
    other: Map<Seq<char>, Seq<Seq<char>>>,
) -> Map<Seq<char>, Seq<Seq<char>>> {
    Map::new(
        |k: Seq<char>| m.contains_key(k) || other.contains_key(k),
        |k: Seq<char>| values_of(m, k) + values_of(other, k),
    )
}

impl HeaderMap {
    /// The number of distinct header names.
    pub closed spec fn spec_len(&self) -> nat {
        self.entries@.len()
    }

    /// The entries in the order the map iterates them.
    pub closed spec fn spec_entries(&self) -> Seq<HeaderEntry> {
        entries_view(self.entries@)
    }

    /// Keys are distinct valid names in lowercase; every header has at least
    /// one value; every value is a valid header value.
    pub open spec fn wf(&self) -> bool {
        &&& distinct_keys(self.spec_entries())
        &&& forall|i: int|
            0 <= i < self.spec_entries().len() ==> is_key(#[trigger] self.spec_entries()[i].0)
        &&& self.spec_len() == self.spec_entries().len()
        &&& forall|i: int|
            0 <= i < self.spec_entries().len() ==> #[trigger] self.spec_entries()[i].1.len() > 0
        &&& forall|i: int, j: int|
            0 <= i < self.spec_entries().len() && 0 <= j < self.spec_entries()[i].1.len()
                ==> valid_value_chars(#[trigger] self.spec_entries()[i].1[j])
        &&& self@ == to_map(self.spec_entries())
    }

    proof fn lemma_len(&self)
        requires
            self.wf(),
        ensures
            self@.dom().finite(),
            self@.dom().len() == self.spec_len(),
    {
        lemma_to_map_len(self.spec_entries());
    }

    /// Position of the entry with key `key`.
    fn find(&self, key: &str) -> (r: Option<usize>)
        requires
            self.wf(),
        ensures
            r matches Some(i) ==> i < self.spec_entries().len() && self.spec_entries()[i as int].0
                == key@,
            r is None ==> forall|i: int|
                0 <= i < self.spec_entries().len() ==> self.spec_entries()[i].0 != key@,
            r is None <==> !self@.contains_key(key@),
    {
        let mut i: usize = 0;
        while i < self.entries.len()
            invariant
                self.wf(),
                i <= self.entries@.len(),
                forall|j: int| 0 <= j < i ==> self.spec_entries()[j].0 != key@,
            decreases self.entries@.len() - i,
        {
            if str_eq(self.entries[i].0.as_str(), key) {
                proof {
                    lemma_to_map_at(self.spec_entries(), i as int);
                }
                return Some(i);
            }
            i = i + 1;
        }
        proof {
            lemma_to_map_dom(self.spec_entries(), key@);
        }
        None
    }

    /// Create an empty header map
    pub fn new() -> (r: Self)
        ensures
            r.wf(),
            r@ == Map::<Seq<char>, Seq<Seq<char>>>::empty(),
    {
        let r = HeaderMap { entries: Vec::new() };
        assert(r.spec_entries() =~= Seq::<HeaderEntry>::empty());
        r
    }

    /// Create a header map with capacity
    pub fn with_capacity(capacity: usize) -> (r: Self)
        ensures
            r.wf(),
            r@ == Map::<Seq<char>, Seq<Seq<char>>>::empty(),
    {
        let r = HeaderMap { entries: Vec::with_capacity(capacity) };
        assert(r.spec_entries() =~= Seq::<HeaderEntry>::empty());
        r
    }

    /// Stores `values` under `key`, replacing what the key held.
    fn put(&mut self, key: String, values: Vec<String>)
        requires
            old(self).wf(),
            is_key(key@),
            values@.len() > 0,
            forall|j: int| 0 <= j < values@.len() ==> valid_value_chars(#[trigger] values@[j]@),
        ensures
            final(self).wf(),
            final(self)@ == old(self)@.insert(key@, values@.map_values(|v: String| v@)),
    {
        let ghost vs = values@.map_values(|v: String| v@);
        let ghost old_es = self.spec_entries();
        match self.find(key.as_str()) {
            Some(i) => {
                let _ = self.entries.remove(i);
                self.entries.insert(i, (key, values));
                proof {
                    assert(self.spec_entries() =~= old_es.update(i as int, (key@, vs)));
                    lemma_to_map_update(old_es, i as int, vs);
                    assert forall|a: int| 0 <= a < self.spec_entries().len() implies is_key(
                        #[trigger] self.spec_entries()[a].0,
                    ) by {
                        if a != i {
                            assert(self.spec_entries()[a] == old_es[a]);
                        }
                    }
                }
            },
            None => {
                self.entries.push((key, values));
                proof {
                    let es = self.spec_entries();
                    assert(es =~= old_es.push((key@, vs)));
                    assert(es.drop_last() =~= old_es);
                    assert forall|a: int| 0 <= a < es.len() implies is_key(#[trigger] es[a].0) by {
                        if a < old_es.len() {
                            assert(es[a] == old_es[a]);
                        }
                    }
                }
            },
        }
    }

    /// Insert a header, replacing any existing values
    ///
    /// Fails, leaving the map unchanged, if the name or the value is invalid.
    pub fn insert(&mut self, name: impl TextArg, value: impl TextArg) -> (r: Result<()>)
        requires
            old(self).wf(),
        ensures
            final(self).wf(),
            r is Ok <==> valid_header_name(name.text_view()) && valid_header_value(value.text_view()),
            r is Ok ==> final(self)@ == old(self)@.insert(
                lowercase(name.text_view()),
                seq![trim(value.text_view())],
            ),
            r is Err ==> final(self)@ == old(self)@,
            r matches Err(e) ==> e matches Error::InvalidState(m) && (if !valid_header_name(
                name.text_view(),
            ) {
                m@ == name_error_message(name.text_view())
            } else {
                value_error_is(value.text_view(), m@)
            }),
    {
        let hname = HeaderName::new(name)?;
        let hvalue = HeaderValue::new(value)?;
        let key = str_to_lowercase(hname.as_str());
        let mut values: Vec<String> = Vec::new();
        values.push(hvalue.into_string());
        assert(values@.map_values(|v: String| v@) =~= seq![trim(value.text_view())]);
        proof {
            lemma_key_of_name(name.text_view());
        }
        self.put(key, values);
        Ok(())
    }

    /// Append a header value, keeping existing values
    ///
    /// Fails, leaving the map unchanged, if the name or the value is invalid.
    pub fn append(&mut self, name: impl TextArg, value: impl TextArg) -> (r: Result<()>)
        requires
            old(self).wf(),
        ensures
            final(self).wf(),
            r is Ok <==> valid_header_name(name.text_view()) && valid_header_value(value.text_view()),
            r is Ok ==> final(self)@ == old(self)@.insert(
                lowercase(name.text_view()),
                values_of(old(self)@, lowercase(name.text_view())).push(trim(value.text_view())),
            ),
            r is Err ==> final(self)@ == old(self)@,
            r matches Err(e) ==> e matches Error::InvalidState(m) && (if !valid_header_name(
                name.text_view(),
            ) {
                m@ == name_error_message(name.text_view())
            } else {
                value_error_is(value.text_view(), m@)
            }),
    {
        let hname = HeaderName::new(name)?;
        let hvalue = HeaderValue::new(value)?;
        let key = str_to_lowercase(hname.as_str());
        let v = hvalue.into_string();
        match self.find(key.as_str()) {
            Some(i) => {
                let ghost old_es = old(self).spec_entries();
                let (k, mut values) = self.entries.remove(i);
                proof {
                    lemma_to_map_at(old_es, i as int);
                }
                values.push(v);
                let ghost vs = values@.map_values(|s: String| s@);
                assert(vs =~= values_of(old(self)@, key@).push(trim(value.text_view())));
                self.entries.insert(i, (k, values));
                proof {
                    assert(self.spec_entries() =~= old_es.update(i as int, (key@, vs)));
                    lemma_to_map_update(old_es, i as int, vs);
                    assert forall|a: int, j: int|
                        0 <= a < self.spec_entries().len() && 0 <= j < self.spec_entries()[a].1.len()
                            implies valid_value_chars(#[trigger] self.spec_entries()[a].1[j]) by {
                        if a == i && j == vs.len() - 1 {
                        } else if a == i {
                            assert(self.spec_entries()[a].1[j] == old_es[a].1[j]);
                        } else {
                            assert(self.spec_entries()[a] == old_es[a]);
                        }
                    }
                }
            },
            None => {
                let mut values: Vec<String> = Vec::new();
                values.push(v);
                assert(values@.map_values(|s: String| s@) =~= values_of(old(self)@, key@).push(
                    trim(value.text_view()),
                ));
                proof {
                    lemma_key_of_name(name.text_view());
                }
                self.put(key, values);
            },
        }
        Ok(())
    }

    /// Get the first value for a header name (compared case-insensitively)
    pub fn get(&self, name: impl TextArg) -> (r: Option<&str>)
        requires
            self.wf(),
        ensures
            r is Some <==> self@.contains_key(lowercase(name.text_view())),
            r matches Some(v) ==> v@ == self@[lowercase(name.text_view())][0],
            opt_str_view(r) == first_value(self@, lowercase(name.text_view())),
    {
        let key = str_to_lowercase(name.as_text());
        match self.find(key.as_str()) {
            Some(i) => {
                proof {
                    lemma_to_map_at(self.spec_entries(), i as int);
                    assert(self.spec_entries()[i as int].1.len() > 0);
                    assert(self.spec_entries()[i as int].1 == self.entries@[i as int].1@.map_values(
                        |v: String| v@,
                    ));
                }
                Some(self.entries[i].1[0].as_str())
            },
            None => None,
        }
    }

    /// Get all values for a header name, in order (empty if the header is absent)
    pub fn get_all(&self, name: impl TextArg) -> (r: Vec<&str>)
        requires
            self.wf(),
        ensures
            r@.map_values(|v: &str| v@) == values_of(self@, lowercase(name.text_view())),
    {
        let key = str_to_lowercase(name.as_text());
        let mut out: Vec<&str> = Vec::new();
        match self.find(key.as_str()) {
            Some(i) => {
                proof {
                    lemma_to_map_at(self.spec_entries(), i as int);
                }
                let values = &self.entries[i].1;
                let mut j: usize = 0;
                while j < values.len()
                    invariant
                        j <= values@.len(),
                        out@.map_values(|v: &str| v@) == values@.subrange(0, j as int).map_values(
                            |v: String| v@,
                        ),
                    decreases values@.len() - j,
                {
                    let ghost prev = out@;
                    out.push(values[j].as_str());
                    assert(out@.map_values(|v: &str| v@) =~= prev.map_values(|v: &str| v@).push(
                        values@[j as int]@,
                    ));
                    assert(values@.subrange(0, j + 1).map_values(|v: String| v@) =~= values@.subrange(
                        0,
                        j as int,
                    ).map_values(|v: String| v@).push(values@[j as int]@));
                    j = j + 1;
                }
                assert(values@.subrange(0, j as int) =~= values@);
            },
            None => {
                assert(out@.map_values(|v: &str| v@) =~= Seq::<Seq<char>>::empty());
            },
        }
        out
    }

    /// Remove a header and return its first value (`None` if it was absent)
    pub fn remove(&mut self, name: impl TextArg) -> (r: Option<String>)
        requires
            old(self).wf(),
        ensures
            final(self).wf(),
            final(self)@ == old(self)@.remove(lowercase(name.text_view())),
            r is Some <==> old(self)@.contains_key(lowercase(name.text_view())),
            r matches Some(v) ==> v@ == old(self)@[lowercase(name.text_view())][0],
    {
        let key = str_to_lowercase(name.as_text());
        match self.find(key.as_str()) {
            Some(i) => {
                let ghost old_es = self.spec_entries();
                proof {
                    lemma_to_map_at(old_es, i as int);
                    assert(old_es[i as int].1.len() > 0);
                    assert(old_es[i as int].1 == self.entries@[i as int].1@.map_values(
                        |v: String| v@,
                    ));
                }
                let (_k, mut values) = self.entries.remove(i);
                let first = values.remove(0);
                proof {
                    let es = self.spec_entries();
                    assert(es =~= old_es.remove(i as int));
                    let m = old(self)@.remove(key@);
                    assert(distinct_keys(es)) by {
                        assert forall|a: int, b: int|
                            0 <= a < es.len() && 0 <= b < es.len() && a != b implies es[a].0 != es[b].0 by {
                            let a2 = if a < i { a } else { a + 1 };
                            let b2 = if b < i { b } else { b + 1 };
                            assert(es[a] == old_es[a2] && es[b] == old_es[b2]);
                        }
                    }
                    assert forall|k: Seq<char>| m.contains_key(k) <==> exists|j: int| 0 <= j < es.len() && es[j].0 == k by {
                        lemma_to_map_dom(old_es, k);
                        if m.contains_key(k) {
                            let j = choose|j: int| 0 <= j < old_es.len() && old_es[j].0 == k;
                            let j2 = if j < i { j } else { j - 1 };
                            assert(es[j2].0 == k);
                        }
                        if exists|j: int| 0 <= j < es.len() && es[j].0 == k {
                            let j = choose|j: int| 0 <= j < es.len() && es[j].0 == k;
                            let j2 = if j < i { j } else { j + 1 };
                            assert(old_es[j2].0 == k);
                        }
                    }
                    assert forall|j: int| 0 <= j < es.len() implies m[#[trigger] es[j].0] == es[j].1 by {
                        let j2 = if j < i { j } else { j + 1 };
                        assert(es[j] == old_es[j2]);
                        lemma_to_map_at(old_es, j2);
                    }
                    lemma_to_map_equal(es, m);
                }
                Some(first)
            },
            None => {
                assert(old(self)@.remove(key@) =~= old(self)@);
                None
            },
        }
    }

    /// Check if a header exists (compared case-insensitively)
    pub fn contains(&self, name: impl TextArg) -> (r: bool)
        requires
            self.wf(),
        ensures
            r == self@.contains_key(lowercase(name.text_view())),
    {
        let key = str_to_lowercase(name.as_text());
        self.find(key.as_str()).is_some()
    }

    /// Check if the header map is empty
    pub fn is_empty(&self) -> (r: bool)
        requires
            self.wf(),
        ensures
            r == (self@.dom().len() == 0),
    {
        proof {
            self.lemma_len();
        }
        self.entries.len() == 0
    }

    /// Get the number of distinct header names
    pub fn len(&self) -> (r: usize)
        requires
            self.wf(),
        ensures
            r == self@.dom().len(),
    {
        proof {
            self.lemma_len();
        }
        self.entries.len()
    }

    /// Clear all headers
    pub fn clear(&mut self)
        requires
            old(self).wf(),
        ensures
            final(self).wf(),
            final(self)@ == Map::<Seq<char>, Seq<Seq<char>>>::empty(),
    {
        self.entries.clear();
        assert(self.spec_entries() =~= Seq::<HeaderEntry>::empty());
    }

    /// Iterate over all headers as (name, first value) pairs
    pub fn iter(&self) -> (r: std::vec::IntoIter<(&str, &str)>)
        requires
            self.wf(),
        ensures
            r.remaining().map_values(|p: (&str, &str)| (p.0@, p.1@)) == self.spec_entries().map_values(
                |e: HeaderEntry| (e.0, e.1[0]),
            ),
            r.remaining().len() == self@.dom().len(),
            forall|i: int|
                0 <= i < r.remaining().len() ==> {
                    &&& is_key(#[trigger] r.remaining()[i].0@)
                    &&& first_value(self@, lowercase(r.remaining()[i].0@)) == Some(
                        r.remaining()[i].1@,
                    )
                },
            forall|i: int, j: int|
                0 <= i < j < r.remaining().len() ==> #[trigger] r.remaining()[i].0@
                    != #[trigger] r.remaining()[j].0@,
    {
        let mut out: Vec<(&str, &str)> = Vec::new();
        let mut i: usize = 0;
        while i < self.entries.len()
            invariant
                self.wf(),
                i <= self.entries@.len(),
                out@.map_values(|p: (&str, &str)| (p.0@, p.1@)) == self.spec_entries().subrange(
                    0,
                    i as int,
                ).map_values(|e: HeaderEntry| (e.0, e.1[0])),
            decreases self.entries@.len() - i,
        {
            assert(self.spec_entries()[i as int].1.len() > 0);
            assert(self.spec_entries()[i as int].1 == self.entries@[i as int].1@.map_values(
                |v: String| v@,
            ));
            let e = &self.entries[i];
            let ghost prev = out@;
            out.push((e.0.as_str(), e.1[0].as_str()));
            assert(out@.map_values(|p: (&str, &str)| (p.0@, p.1@)) =~= prev.map_values(
                |p: (&str, &str)| (p.0@, p.1@),
            ).push((self.spec_entries()[i as int].0, self.spec_entries()[i as int].1[0])));
            assert(self.spec_entries().subrange(0, i + 1).map_values(|e: HeaderEntry| (e.0, e.1[0]))
                =~= self.spec_entries().subrange(0, i as int).map_values(
                |e: HeaderEntry| (e.0, e.1[0]),
            ).push((self.spec_entries()[i as int].0, self.spec_entries()[i as int].1[0])));
            i = i + 1;
        }
        assert(self.spec_entries().subrange(0, i as int) =~= self.spec_entries());
        proof {
            self.lemma_len();
            let es = self.spec_entries();
            let f = |p: (&str, &str)| (p.0@, p.1@);
            let g = |e: HeaderEntry| (e.0, e.1[0]);
            assert forall|k: int| 0 <= k < out@.len() implies is_key(#[trigger] out@[k].0@)
                && first_value(self@, lowercase(out@[k].0@)) == Some(out@[k].1@) by {
                assert(out@.map_values(f)[k] == es.map_values(g)[k]);
                lemma_to_map_at(es, k);
            }
            assert forall|a: int, b: int| 0 <= a < b < out@.len() implies #[trigger] out@[a].0@
                != #[trigger] out@[b].0@ by {
                assert(out@.map_values(f)[a] == es.map_values(g)[a]);
                assert(out@.map_values(f)[b] == es.map_values(g)[b]);
            }
        }
        out.into_iter()
    }

    /// Iterate over all headers with all their values
    pub fn iter_all(&self) -> (r: std::vec::IntoIter<(&str, Vec<&str>)>)
        requires
            self.wf(),
        ensures
            r.remaining().map_values(
                |p: (&str, Vec<&str>)| (p.0@, p.1@.map_values(|v: &str| v@)),
            ) == self.spec_entries(),
    {
        let mut out: Vec<(&str, Vec<&str>)> = Vec::new();
        let mut i: usize = 0;
        while i < self.entries.len()
            invariant
                self.wf(),
                i <= self.entries@.len(),
                out@.map_values(|p: (&str, Vec<&str>)| (p.0@, p.1@.map_values(|v: &str| v@)))
                    == self.spec_entries().subrange(0, i as int),
            decreases self.entries@.len() - i,
        {
            let e = &self.entries[i];
            let mut vs: Vec<&str> = Vec::new();
            let mut j: usize = 0;
            while j < e.1.len()
                invariant
                    j <= e.1@.len(),
                    vs@.map_values(|v: &str| v@) == e.1@.subrange(0, j as int).map_values(
                        |v: String| v@,
                    ),
                decreases e.1@.len() - j,
            {
                let ghost prev = vs@;
                vs.push(e.1[j].as_str());
                assert(vs@.map_values(|v: &str| v@) =~= prev.map_values(|v: &str| v@).push(
                    e.1@[j as int]@,
                ));
                assert(e.1@.subrange(0, j + 1).map_values(|v: String| v@) =~= e.1@.subrange(
                    0,
                    j as int,
                ).map_values(|v: String| v@).push(e.1@[j as int]@));
                j = j + 1;
            }
            assert(e.1@.subrange(0, j as int) =~= e.1@);
            let ghost prev_out = out@;
            let ghost entry = (e.0@, vs@.map_values(|v: &str| v@));
            assert(entry == self.spec_entries()[i as int]);
            out.push((e.0.as_str(), vs));
            assert(out@.map_values(|p: (&str, Vec<&str>)| (p.0@, p.1@.map_values(|v: &str| v@)))
                =~= prev_out.map_values(
                |p: (&str, Vec<&str>)| (p.0@, p.1@.map_values(|v: &str| v@)),
            ).push(entry));
            assert(self.spec_entries().subrange(0, i + 1) =~= self.spec_entries().subrange(
                0,
                i as int,
            ).push(entry));
            i = i + 1;
        }
        assert(self.spec_entries().subrange(0, i as int) =~= self.spec_entries());
        out.into_iter()
    }

    /// Extend this header map with another: each header of `other` gets its
    /// values appended after the values this map holds for it.
    pub fn extend(&mut self, other: HeaderMap)
        requires
            old(self).wf(),
            other.wf(),
        ensures
            final(self).wf(),
            final(self)@ == merged(old(self)@, other@),
    {
        let ghost oes = other.spec_entries();
        let mut rest = other.entries;
        let mut i: usize = 0;
        let _n = rest.len();
        proof {
            assert(oes.take(0) =~= Seq::<HeaderEntry>::empty());
            assert(merged(old(self)@, to_map(oes.take(0))) =~= old(self)@);
            assert(entries_view(rest@) =~= oes.skip(0));
        }
        while rest.len() > 0
            invariant
                self.wf(),
                distinct_keys(oes),
                forall|a: int| 0 <= a < oes.len() ==> #[trigger] oes[a].1.len() > 0,
                forall|a: int, b: int|
                    0 <= a < oes.len() && 0 <= b < oes[a].1.len() ==> valid_value_chars(
                        #[trigger] oes[a].1[b],
                    ),
                forall|a: int| 0 <= a < oes.len() ==> is_key(#[trigger] oes[a].0),
                i <= oes.len(),
                oes.len() <= usize::MAX,
                entries_view(rest@) == oes.skip(i as int),
                self@ == merged(old(self)@, to_map(oes.take(i as int))),
            decreases rest@.len(),
        {
            let ghost before = self@;
            let ghost es_before = self.spec_entries();
            let ghost old_rest = rest@;
            assert(entries_view(old_rest).len() == oes.skip(i as int).len());
            assert(oes.skip(i as int)[0] == oes[i as int]);
            assert(entries_view(rest@)[0] == oes[i as int]);
            let (k, vs) = rest.remove(0);
            let ghost kv = k@;
            let ghost vsv = vs@.map_values(|v: String| v@);
            assert((kv, vsv) == oes[i as int]);
            proof {
                assert(rest@ =~= old_rest.drop_first());
                assert(entries_view(rest@) =~= entries_view(old_rest).drop_first());
                assert(entries_view(rest@) =~= oes.skip(i + 1));
                let t0 = oes.take(i as int);
                let t1 = oes.take(i + 1);
                assert(t1.drop_last() =~= t0);
                assert(to_map(t1) == to_map(t0).insert(kv, vsv));
                lemma_to_map_dom(t0, kv);
                if to_map(t0).contains_key(kv) {
                    let a = choose|a: int| 0 <= a < t0.len() && t0[a].0 == kv;
                    assert(oes[a].0 == oes[i as int].0);
                }
                assert(merged(before, Map::<Seq<char>, Seq<Seq<char>>>::empty().insert(kv, vsv))
                    =~= merged(old(self)@, to_map(t1))) by {
                    assert(before == merged(old(self)@, to_map(t0)));
                }
            }
            match self.find(k.as_str()) {
                Some(j) => {
                    proof {
                        lemma_to_map_at(es_before, j as int);
                        assert(es_before[j as int].1 == self.entries@[j as int].1@.map_values(
                            |v: String| v@,
                        ));
                    }
                    let (k2, mut values) = self.entries.remove(j);
                    let mut vs2 = vs;
                    values.append(&mut vs2);
                    let ghost newv = values@.map_values(|v: String| v@);
                    assert(newv =~= values_of(before, kv) + vsv);
                    self.entries.insert(j, (k2, values));
                    proof {
                        assert(self.spec_entries() =~= es_before.update(j as int, (kv, newv)));
                        lemma_to_map_update(es_before, j as int, newv);
                        let es = self.spec_entries();
                        assert forall|a: int, b: int|
                            0 <= a < es.len() && 0 <= b < es[a].1.len() implies valid_value_chars(
                                #[trigger] es[a].1[b],
                            ) by {
                            if a == j {
                                if b < es_before[a].1.len() {
                                    assert(es[a].1[b] == es_before[a].1[b]);
                                } else {
                                    assert(es[a].1[b] == vsv[b - es_before[a].1.len()]);
                                    assert(vsv == oes[i as int].1);
                                }
                            } else {
                                assert(es[a] == es_before[a]);
                            }
                        }
                        assert forall|a: int| 0 <= a < es.len() implies is_key(#[trigger] es[a].0) by {
                            if a != j {
                                assert(es[a] == es_before[a]);
                            }
                        }
                        assert(self@ =~= merged(before, Map::<Seq<char>, Seq<Seq<char>>>::empty().insert(kv, vsv)));
                    }
                },
                None => {
                    self.entries.push((k, vs));
                    proof {
                        let es = self.spec_entries();
                        assert(es =~= es_before.push((kv, vsv)));
                        assert(es.drop_last() =~= es_before);
                        assert(vsv == oes[i as int].1);
                        assert forall|a: int| 0 <= a < es.len() implies is_key(#[trigger] es[a].0) by {
                            if a < es_before.len() {
                                assert(es[a] == es_before[a]);
                            }
                        }
                        assert(self@ =~= merged(before, Map::<Seq<char>, Seq<Seq<char>>>::empty().insert(kv, vsv)));
                    }
                },
            }
            i = i + 1;
        }
        proof {
            assert(oes.skip(i as int).len() == 0);
            assert(oes.take(i as int) =~= oes);
        }
    }

    /// Get the Authorization header value
    pub fn get_authorization(&self) -> (r: Option<&str>)
        requires
            self.wf(),
        ensures
            opt_str_view(r) == first_value(self@, lowercase("Authorization"@)),
    {
        self.get("Authorization")
    }

    /// Set the Authorization header value (replacing any existing values)
    pub fn set_authorization(&mut self, value: impl TextArg) -> (r: Result<()>)
        requires
            old(self).wf(),
        ensures
            final(self).wf(),
            r is Ok <==> valid_header_value(value.text_view()),
            r is Ok ==> final(self)@ == old(self)@.insert(
                lowercase("Authorization"@),
                seq![trim(value.text_view())],
            ),
            r is Err ==> final(self)@ == old(self)@,
            r matches Err(e) ==> e matches Error::InvalidState(m) && value_error_is(value.text_view(), m@),
    {
        proof {
            reveal_strlit("Authorization");
        }
        self.insert("Authorization", value)
    }

    /// Get the User-Agent header value
    pub fn get_user_agent(&self) -> (r: Option<&str>)
        requires
            self.wf(),
        ensures
            opt_str_view(r) == first_value(self@, lowercase("User-Agent"@)),
    {
        self.get("User-Agent")
    }

    /// Set the User-Agent header value (replacing any existing values)
    pub fn set_user_agent(&mut self, value: impl TextArg) -> (r: Result<()>)
        requires
            old(self).wf(),
        ensures
            final(self).wf(),
            r is Ok <==> valid_header_value(value.text_view()),
            r is Ok ==> final(self)@ == old(self)@.insert(
                lowercase("User-Agent"@),
                seq![trim(value.text_view())],
            ),
            r is Err ==> final(self)@ == old(self)@,
            r matches Err(e) ==> e matches Error::InvalidState(m) && value_error_is(value.text_view(), m@),
    {
        proof {
            reveal_strlit("User-Agent");
        }
        self.insert("User-Agent", value)
    }

    /// Get the Origin header value
    pub fn get_origin(&self) -> (r: Option<&str>)
        requires
            self.wf(),
        ensures
            opt_str_view(r) == first_value(self@, lowercase("Origin"@)),
    {
        self.get("Origin")
    }

    /// Set the Origin header value (replacing any existing values)
    pub fn set_origin(&mut self, value: impl TextArg) -> (r: Result<()>)
        requires
            old(self).wf(),
        ensures
            final(self).wf(),
            r is Ok <==> valid_header_value(value.text_view()),
            r is Ok ==> final(self)@ == old(self)@.insert(
                lowercase("Origin"@),
                seq![trim(value.text_view())],
            ),
            r is Err ==> final(self)@ == old(self)@,
            r matches Err(e) ==> e matches Error::InvalidState(m) && value_error_is(value.text_view(), m@),
    {
        proof {
            reveal_strlit("Origin");
        }
        self.insert("Origin", value)
    }

    /// Get the Cookie header value
    pub fn get_cookie(&self) -> (r: Option<&str>)
        requires
            self.wf(),
        ensures
            opt_str_view(r) == first_value(self@, lowercase("Cookie"@)),
    {
        self.get("Cookie")
    }

    /// Set the Cookie header value (replacing any existing values)
    pub fn set_cookie(&mut self, value: impl TextArg) -> (r: Result<()>)
        requires
            old(self).wf(),
        ensures
            final(self).wf(),
            r is Ok <==> valid_header_value(value.text_view()),
            r is Ok ==> final(self)@ == old(self)@.insert(
                lowercase("Cookie"@),
                seq![trim(value.text_view())],
            ),
            r is Err ==> final(self)@ == old(self)@,
            r matches Err(e) ==> e matches Error::InvalidState(m) && value_error_is(value.text_view(), m@),
    {
        proof {
            reveal_strlit("Cookie");
        }
        self.insert("Cookie", value)
    }

    /// Get the Host header value
    pub fn get_host(&self) -> (r: Option<&str>)
        requires
            self.wf(),
        ensures
            opt_str_view(r) == first_value(self@, lowercase("Host"@)),
    {
        self.get("Host")
    }

    /// Set the Host header value (replacing any existing values)
    pub fn set_host(&mut self, value: impl TextArg) -> (r: Result<()>)
        requires
            old(self).wf(),
        ensures
            final(self).wf(),
            r is Ok <==> valid_header_value(value.text_view()),
            r is Ok ==> final(self)@ == old(self)@.insert(
                lowercase("Host"@),
                seq![trim(value.text_view())],
            ),
            r is Err ==> final(self)@ == old(self)@,
            r matches Err(e) ==> e matches Error::InvalidState(m) && value_error_is(value.text_view(), m@),
    {
        proof {
            reveal_strlit("Host");
        }
        self.insert("Host", value)
    }

    /// Get the X-API-Key header value
    pub fn get_api_key(&self) -> (r: Option<&str>)
        requires
            self.wf(),
        ensures
            opt_str_view(r) == first_value(self@, lowercase("X-API-Key"@)),
    {
        self.get("X-API-Key")
    }

    /// Set the X-API-Key header value (replacing any existing values)
    pub fn set_api_key(&mut self, value: impl TextArg) -> (r: Result<()>)
        requires
            old(self).wf(),
        ensures
            final(self).wf(),
            r is Ok <==> valid_header_value(value.text_view()),
            r is Ok ==> final(self)@ == old(self)@.insert(
                lowercase("X-API-Key"@),
                seq![trim(value.text_view())],
            ),
            r is Err ==> final(self)@ == old(self)@,
            r matches Err(e) ==> e matches Error::InvalidState(m) && value_error_is(value.text_view(), m@),
    {
        proof {
            reveal_strlit("X-API-Key");
        }
        self.insert("X-API-Key", value)
    }

    /// Get all Cookie values
    pub fn get_all_cookies(&self) -> (r: Vec<&str>)
        requires
            self.wf(),
        ensures
            r@.map_values(|v: &str| v@) == values_of(self@, lowercase("Cookie"@)),
    {
        self.get_all("Cookie")
    }
}

impl HeaderMap {
    /// Convert to `http::HeaderMap`: every value of every header, in order,
    /// appended under the header's name.
    ///
    /// Fails on the first name that `http` refuses. A map holding more than
    /// 24576 names cannot be converted (`http` panics), which `requires`
    /// leaves out.
    pub fn to_http_header_map(&self) -> (r: Result<HttpHeaderMap>)
        requires
            self.wf(),
            self.spec_len() <= 24576,
        ensures
            (forall|i: int| 0 <= i < self.spec_entries().len() ==> http_name_ok(
                #[trigger] self.spec_entries()[i].0,
            )) && value_count(self.spec_entries()) < 6554 ==> r is Ok,
            r matches Ok(h) ==> {
                &&& forall|i: int|
                    0 <= i < self.spec_entries().len() ==> http_name_ok(
                        #[trigger] self.spec_entries()[i].0,
                    )
                &&& http_headers(h).len() == value_count(self.spec_entries())
                &&& forall|n: Seq<char>|
                    #[trigger] http_values(http_headers(h), n) == carried(self.spec_entries(), n)
            },
            r matches Err(e) ==> (e matches Error::InvalidState(m) && (m@ == http_full_error() || exists|i: int|
                first_bad_name(self.spec_entries(), i) && m@ == http_name_error(
                    #[trigger] self.spec_entries()[i].0,
                ))),
            (exists|i: int| first_bad_name(self.spec_entries(), i)) && value_count(
                self.spec_entries(),
            ) < 6554 ==> (r matches Err(e) && e matches Error::InvalidState(m) && exists|i: int|
                first_bad_name(self.spec_entries(), i) && m@ == http_name_error(
                    #[trigger] self.spec_entries()[i].0,
                )),
    {
        let ghost es = self.spec_entries();
        let mut h = http_with_capacity(self.entries.len());
        let mut i: usize = 0;
        while i < self.entries.len()
            invariant
                self.wf(),
                es == self.spec_entries(),
                i <= es.len(),
                forall|j: int| 0 <= j < i ==> http_name_ok(#[trigger] es[j].0),
                http_headers(h).len() == value_count(es.take(i as int)),
                forall|n: Seq<char>|
                    #[trigger] http_values(http_headers(h), n) == carried(es.take(i as int), n),
            decreases es.len() - i,
        {
            let name = self.entries[i].0.as_str();
            let values = &self.entries[i].1;
            let ghost e = es[i as int];
            assert(e.0 == name@);
            assert(e.1 == values@.map_values(|v: String| v@));
            let mut j: usize = 0;
            while j < values.len()
                invariant
                    self.wf(),
                    es == self.spec_entries(),
                    i < es.len(),
                    e == es[i as int],
                    e.0 == name@,
                    e.1 == values@.map_values(|v: String| v@),
                    j <= values@.len(),
                    j > 0 ==> http_name_ok(name@),
                    forall|a: int| 0 <= a < i ==> http_name_ok(#[trigger] es[a].0),
                    http_headers(h).len() == value_count(es.take(i as int)) + j,
                    forall|n: Seq<char>|
                        #[trigger] http_values(http_headers(h), n) == carried(es.take(i as int), n)
                            + if http_name(e.0) == n {
                            e.1.take(j as int).map_values(|v: Seq<char>| vstd::utf8::encode_utf8(v))
                        } else {
                            Seq::<Seq<u8>>::empty()
                        },
                decreases values@.len() - j,
            {
                let v = values[j].as_str();
                assert(v@ == e.1[j as int]);
                match http_try_append(&mut h, name, v) {
                    Ok(_) => {},
                    Err(HttpHeaderFault::Name) => {
                        proof {
                            assert(first_bad_name(es, i as int));
                        }
                        let mut m = String::from_str("Invalid header name '");
                        m.append(name);
                        m.append("': invalid HTTP header name");
                        proof {
                            reveal_strlit("Invalid header name '");
                            reveal_strlit("': invalid HTTP header name");
                        }
                        return Err(Error::InvalidState(m));
                    },
                    Err(HttpHeaderFault::Value) => {
                        // Unreachable: every stored value is one `http` accepts.
                        proof {
                            self.lemma_value_ok(i as int, j as int);
                        }
                        let mut m = String::from_str("Invalid header value for '");
                        m.append(name);
                        m.append("': failed to parse header value");
                        return Err(Error::InvalidState(m));
                    },
                    Err(HttpHeaderFault::Capacity) => {
                        proof {
                            lemma_value_count_prefix(es, i as int);
                            lemma_value_count_prefix(es, i + 1);
                        }
                        return Err(Error::invalid_state("Invalid header map: max size reached"));
                    },
                }
                proof {
                    let ghost enc = |v: Seq<char>| vstd::utf8::encode_utf8(v);
                    assert(e.1.take(j + 1).map_values(enc) =~= e.1.take(j as int).map_values(enc).push(
                        vstd::utf8::encode_utf8(e.1[j as int]),
                    ));
                }
                j = j + 1;
            }
            proof {
                let ghost enc = |v: Seq<char>| vstd::utf8::encode_utf8(v);
                assert(e.1.take(j as int) =~= e.1);
                assert(es.take(i + 1).drop_last() =~= es.take(i as int));
                assert(es.take(i + 1).last() == e);
                if values@.len() == 0 {
                    assert(e.1.len() > 0);
                }
            }
            i = i + 1;
        }
        assert(es.take(i as int) =~= es);
        Ok(h)
    }

    /// Every stored value is one `http` accepts.
    proof fn lemma_value_ok(&self, i: int, j: int)
        requires
            self.wf(),
            0 <= i < self.spec_entries().len(),
            0 <= j < self.spec_entries()[i].1.len(),
        ensures
            http_value_ok(self.spec_entries()[i].1[j]),
    {
        let v = self.spec_entries()[i].1[j];
        assert(valid_value_chars(v));
        assert forall|k: int| 0 <= k < v.len() implies http_value_char(#[trigger] v[k]) by {
            assert(valid_value_char(v[k]));
        }
    }

    /// Convert from `http::HeaderMap`: each (name, value) pair appended in
    /// the order `http` iterates them. A value that is not visible ASCII
    /// counts as empty; a pair whose name or value `append` refuses is
    /// skipped.
    pub fn from_http_header_map(http_map: &HttpHeaderMap) -> (r: Self)
        ensures
            r.wf(),
            r@ == absorb(http_headers(*http_map)),
    {
        let ghost hs = http_headers(*http_map);
        let mut map = HeaderMap::with_capacity(http_len(http_map));
        let pairs = http_pairs(http_map);
        let mut i: usize = 0;
        while i < pairs.len()
            invariant
                map.wf(),
                hs == http_headers(*http_map),
                pairs@.len() == hs.len(),
                forall|k: int|
                    0 <= k < pairs@.len() ==> (#[trigger] pairs@[k]).0@ == hs[k].0 && pairs@[k].1@
                        == hs[k].1,
                i <= pairs@.len(),
                map@ == absorb(hs.take(i as int)),
            decreases pairs@.len() - i,
        {
            let text = header_text(pairs[i].1.as_slice());
            let _ = map.append(pairs[i].0.as_str(), text.as_str());
            proof {
                assert(hs.take(i + 1).drop_last() =~= hs.take(i as int));
                assert(hs.take(i + 1).last() == hs[i as int]);
                assert(pairs@[i as int].0@ == hs[i as int].0);
            }
            i = i + 1;
        }
        assert(hs.take(i as int) =~= hs);
        map
    }
}

impl<'a> From<&'a HttpHeaderMap> for HeaderMap {
    /// Convert from a borrowed `http::HeaderMap` (see `from_http_header_map`)
    fn from(http_map: &'a HttpHeaderMap) -> (r: Self)
        ensures
            r.wf(),
            r@ == absorb(http_headers(*http_map)),
    {
        HeaderMap::from_http_header_map(http_map)
    }
}

impl<'a> vstd::std_specs::convert::FromSpecImpl<&'a HttpHeaderMap> for HeaderMap {
    /// No equation is claimed for `from`: its `ensures` says what it gives.
    open spec fn obeys_from_spec() -> bool {
        false
    }

    open spec fn from_spec(v: &'a HttpHeaderMap) -> Self {
        vstd::pervasive::arbitrary()
    }
}

impl From<HttpHeaderMap> for HeaderMap {
    /// Convert from an owned `http::HeaderMap` (see `from_http_header_map`)
    fn from(http_map: HttpHeaderMap) -> (r: Self)
        ensures
            r.wf(),
            r@ == absorb(http_headers(http_map)),
    {
        HeaderMap::from_http_header_map(&http_map)
    }
}

impl vstd::std_specs::convert::FromSpecImpl<HttpHeaderMap> for HeaderMap {
    /// No equation is claimed for `from`: its `ensures` says what it gives.
    open spec fn obeys_from_spec() -> bool {
        false
    }

    open spec fn from_spec(v: HttpHeaderMap) -> Self {
        vstd::pervasive::arbitrary()
    }
}

impl Default for HeaderMap {
    fn default() -> (r: Self)
        ensures
            r.wf(),
            r@ == Map::<Seq<char>, Seq<Seq<char>>>::empty(),
    {
        HeaderMap::new()
    }
}

/// The map after inserting each (name, value) pair in turn, skipping the
/// pairs that `insert` rejects.
pub open spec fn insert_all(
    m: Map<Seq<char>, Seq<Seq<char>>>,
    pairs: Seq<(Seq<char>, Seq<char>)>,
) -> Map<Seq<char>, Seq<Seq<char>>>
    decreases pairs.len(),
{
    if pairs.len() == 0 {
        m
    } else {
        let prev = insert_all(m, pairs.drop_last());
        let (n, v) = pairs.last();
        if valid_header_name(n) && valid_header_value(v) {
            prev.insert(lowercase(n), seq![trim(v)])
        } else {
            prev
        }
    }
}

impl HeaderMap {
    /// Builds a map from (name, value) pairs, inserting each in turn; a pair
    /// with an invalid name or value is skipped.
    pub fn from_pairs(pairs: Vec<(&str, &str)>) -> (r: Self)
        ensures
            r.wf(),
            r@ == insert_all(
                Map::<Seq<char>, Seq<Seq<char>>>::empty(),
                pairs@.map_values(|p: (&str, &str)| (p.0@, p.1@)),
            ),
    {
        let ghost ps = pairs@.map_values(|p: (&str, &str)| (p.0@, p.1@));
        let mut map = HeaderMap::new();
        let mut i: usize = 0;
        while i < pairs.len()
            invariant
                map.wf(),
                i <= pairs@.len(),
                ps == pairs@.map_values(|p: (&str, &str)| (p.0@, p.1@)),
                map@ == insert_all(Map::<Seq<char>, Seq<Seq<char>>>::empty(), ps.take(i as int)),
            decreases pairs@.len() - i,
        {
            let (n, v) = pairs[i];
            let _ = map.insert(n, v);
            proof {
                assert(ps.take(i + 1).drop_last() =~= ps.take(i as int));
                assert(ps.take(i + 1).last() == (n@, v@));
            }
            i = i + 1;
        }
        assert(ps.take(i as int) =~= ps);
        map
    }
}

/// Reading a header after writing it gives back the written value, under
/// any spelling of the name that lowercases to the same key.
pub proof fn law_get_after_insert(
    m: Map<Seq<char>, Seq<Seq<char>>>,
    name: Seq<char>,
    value: Seq<char>,
    query: Seq<char>,
)
    requires
        lowercase(query) == lowercase(name),
    ensures
        first_value(m.insert(lowercase(name), seq![trim(value)]), lowercase(query)) == Some(
            trim(value),
        ),
        values_of(m.insert(lowercase(name), seq![trim(value)]), lowercase(query)) == seq![
            trim(value),
        ],
{
}

/// Appending keeps the values a header already had and adds the new one last.
pub proof fn law_append_keeps_values(
    m: Map<Seq<char>, Seq<Seq<char>>>,
    name: Seq<char>,
    value: Seq<char>,
)
    ensures
        ({
            let k = lowercase(name);
            let m2 = m.insert(k, values_of(m, k).push(trim(value)));
            &&& values_of(m2, k).len() == values_of(m, k).len() + 1
            &&& values_of(m2, k).subrange(0, values_of(m, k).len() as int) == values_of(m, k)
            &&& values_of(m2, k).last() == trim(value)
        }),
{
    let k = lowercase(name);
    let m2 = m.insert(k, values_of(m, k).push(trim(value)));
    assert(values_of(m2, k).subrange(0, values_of(m, k).len() as int) =~= values_of(m, k));
}

/// A removed header is gone; the others are untouched.
pub proof fn law_remove(m: Map<Seq<char>, Seq<Seq<char>>>, name: Seq<char>, other: Seq<char>)
    requires
        other != lowercase(name),
    ensures
        !m.remove(lowercase(name)).contains_key(lowercase(name)),
        values_of(m.remove(lowercase(name)), other) == values_of(m, other),
{
}

/// Two ASCII names that differ only in the case of their letters name the
/// same header.
pub proof fn law_ascii_names_case_insensitive(a: Seq<char>, b: Seq<char>)
    requires
        all_ascii(a),
        all_ascii(b),
        a.len() == b.len(),
        forall|i: int| 0 <= i < a.len() ==> ascii_lower(#[trigger] a[i]) == ascii_lower(b[i]),
    ensures
        lowercase(a) == lowercase(b),
{
    assert(lowercase(a) =~= lowercase(b));
}

/// Extending a map keeps every header of both maps, with the values of the
/// extended map first.
pub proof fn law_extend_keeps_both(
    m: Map<Seq<char>, Seq<Seq<char>>>,
    other: Map<Seq<char>, Seq<Seq<char>>>,
    k: Seq<char>,
)
    ensures
        merged(m, other).contains_key(k) <==> m.contains_key(k) || other.contains_key(k),
        values_of(merged(m, other), k) == values_of(m, k) + values_of(other, k),
{
    if !(m.contains_key(k) || other.contains_key(k)) {
        assert(values_of(m, k) + values_of(other, k) =~= Seq::<Seq<char>>::empty());
    }
}

} // verus!

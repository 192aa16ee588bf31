//! WebSocket subprotocol negotiation (RFC 6455 Section 1.9)
//!
//! Clients offer subprotocols in order of preference; servers select the
//! first one of the client's list that they support.
use vstd::prelude::*;
use crate::error::{Error, Result};
use crate::text::{
    char_is_alphanumeric, is_alnum, join, trim, trim_start, trim_end, trim_str, split_on,
    lemma_split_on_nonempty, str_eq, push_char, is_ws,
};

verus! {

/// A character allowed in a subprotocol name: alphanumeric, hyphen or underscore.
pub open spec fn valid_protocol_char(c: char) -> bool {
    is_alnum(c) || c == '-' || c == '_'
}

/// A valid subprotocol name: non-empty, and made of allowed characters only.
pub open spec fn valid_protocol_name(p: Seq<char>) -> bool {
    p.len() > 0 && forall|i: int| 0 <= i < p.len() ==> valid_protocol_char(#[trigger] p[i])
}

/// No character of the name is whitespace.
pub open spec fn no_space(p: Seq<char>) -> bool {
    forall|i: int| 0 <= i < p.len() ==> !is_ws(#[trigger] p[i])
}

/// The message of the error for an invalid subprotocol name.
pub open spec fn invalid_protocol_message(p: Seq<char>) -> Seq<char> {
    if p.len() == 0 {
        "Subprotocol name cannot be empty"@
    } else {
        "Subprotocol name '"@ + p
            + "' contains invalid characters (only alphanumeric, hyphen, underscore allowed)"@
    }
}

/// The message of the error for a server selection the client did not offer.
pub open spec fn not_offered_message(p: Seq<char>) -> Seq<char> {
    "Server selected protocol '"@ + p + "' not offered by client"@
}

/// The valid names among `ps`, in order.
pub open spec fn keep_valid(ps: Seq<Seq<char>>) -> Seq<Seq<char>>
    decreases ps.len(),
{
    if ps.len() == 0 {
        Seq::<Seq<char>>::empty()
    } else {
        let r = keep_valid(ps.drop_last());
        if valid_protocol_name(ps.last()) {
            r.push(ps.last())
        } else {
            r
        }
    }
}

/// The list that a `Sec-WebSocket-Protocol` header value stands for: its
/// comma-separated pieces, trimmed, keeping the valid names.
pub open spec fn parse_header_spec(h: Seq<char>) -> Seq<Seq<char>> {
    keep_valid(split_on(h, ',').map_values(|p: Seq<char>| trim(p)))
}

/// The first protocol of `client` from position `i` on that `server` holds.
pub open spec fn first_supported_from(
    server: Seq<Seq<char>>,
    client: Seq<Seq<char>>,
    i: int,
) -> Option<Seq<char>>
    decreases client.len() - i,
{
    if i < 0 || i >= client.len() {
        None
    } else if server.contains(client[i]) {
        Some(client[i])
    } else {
        first_supported_from(server, client, i + 1)
    }
}

/// The protocol that a server supporting `server`, with wildcard support
/// `wildcard`, selects from the client's offer `client`.
pub open spec fn negotiate_spec(
    server: Seq<Seq<char>>,
    wildcard: bool,
    client: Seq<Seq<char>>,
) -> Option<Seq<char>> {
    if client.len() == 0 {
        None
    } else if wildcard {
        Some(client[0])
    } else {
        first_supported_from(server, client, 0)
    }
}

pub open spec fn strings_view(v: Seq<String>) -> Seq<Seq<char>> {
    v.map_values(|s: String| s@)
}

/// Validate a subprotocol name according to RFC 6455
///
/// The name must be non-empty and contain only alphanumeric characters,
/// hyphens and underscores.
pub fn validate_protocol(protocol: &str) -> (r: Result<()>)
    ensures
        r is Ok <==> valid_protocol_name(protocol@),
        r is Ok ==> no_space(protocol@),
        r matches Err(e) ==> e matches Error::InvalidSubprotocol(m) && m@
            == invalid_protocol_message(protocol@),
{
    let n = protocol.unicode_len();
    if n == 0 {
        return Err(Error::InvalidSubprotocol(String::from_str("Subprotocol name cannot be empty")));
    }
    let mut i: usize = 0;
    while i < n
        invariant
            n == protocol@.len(),
            i <= n,
            forall|j: int| 0 <= j < i ==> valid_protocol_char(#[trigger] protocol@[j]),
            forall|j: int| 0 <= j < i ==> !is_ws(#[trigger] protocol@[j]),
        decreases n - i,
    {
        let c = protocol.get_char(i);
        if !(char_is_alphanumeric(c) || c == '-' || c == '_') {
            let mut m = String::from_str("Subprotocol name '");
            m.append(protocol);
            m.append(
                "' contains invalid characters (only alphanumeric, hyphen, underscore allowed)",
            );
            return Err(Error::InvalidSubprotocol(m));
        }
        i = i + 1;
    }
    Ok(())
}

/// Whether `v` holds a string equal to `s`.
fn vec_contains_str(v: &Vec<String>, s: &str) -> (r: bool)
    ensures
        r == strings_view(v@).contains(s@),
{
    let mut i: usize = 0;
    while i < v.len()
        invariant
            i <= v.len(),
            forall|j: int| 0 <= j < i ==> v@[j]@ != s@,
        decreases v.len() - i,
    {
        if str_eq(v[i].as_str(), s) {
            assert(strings_view(v@)[i as int] == s@);
            return true;
        }
        i = i + 1;
    }
    assert forall|j: int| 0 <= j < strings_view(v@).len() implies strings_view(v@)[j] != s@ by {
        assert(v@[j]@ != s@);
    }
    false
}

/// Client-side subprotocol list for protocol negotiation
///
/// Maintains an ordered list of subprotocols the client supports,
/// in order of preference (highest priority first).
#[derive(Debug, Clone)]
pub struct SubprotocolList {
    /// Ordered list of subprotocol names (highest priority first)
    protocols: Vec<String>,
}

impl View for SubprotocolList {
    type V = Seq<Seq<char>>;

    closed spec fn view(&self) -> Seq<Seq<char>> {
        strings_view(self.protocols@)
    }
}

impl SubprotocolList {
    /// Every name in the list is a valid subprotocol name.
    pub open spec fn wf(&self) -> bool {
        &&& forall|i: int| 0 <= i < self@.len() ==> valid_protocol_name(#[trigger] self@[i])
        &&& forall|i: int| 0 <= i < self@.len() ==> no_space(#[trigger] self@[i])
    }

    /// Create an empty subprotocol list
    pub fn new() -> (r: Self)
        ensures
            r@ == Seq::<Seq<char>>::empty(),
            r.wf(),
    {
        SubprotocolList { protocols: Vec::new() }
    }

    /// Create a subprotocol list from a slice of strings
    ///
    /// Fails with the error of the first invalid name.
    pub fn from_slice(protocols: &[&str]) -> (r: Result<Self>)
        ensures
            r is Ok <==> (forall|i: int|
                0 <= i < protocols@.len() ==> valid_protocol_name(#[trigger] protocols@[i]@)),
            r matches Ok(l) ==> l@ == protocols@.map_values(|p: &str| p@) && l.wf(),
            r matches Err(e) ==> exists|i: int|
                0 <= i < protocols@.len() && !valid_protocol_name(#[trigger] protocols@[i]@)
                    && (e matches Error::InvalidSubprotocol(m) && m@ == invalid_protocol_message(
                    protocols@[i]@,
                )) && forall|j: int| 0 <= j < i ==> valid_protocol_name(protocols@[j]@),
    {
        let mut list = Self::new();
        let mut i: usize = 0;
        while i < protocols.len()
            invariant
                i <= protocols@.len(),
                list@ == protocols@.subrange(0, i as int).map_values(|p: &str| p@),
                list.wf(),
                forall|j: int| 0 <= j < i ==> valid_protocol_name(#[trigger] protocols@[j]@),
            decreases protocols@.len() - i,
        {
            match list.with_protocol(protocols[i]) {
                Ok(l) => {
                    list = l;
                    assert(protocols@.subrange(0, i + 1).map_values(|p: &str| p@)
                        =~= protocols@.subrange(0, i as int).map_values(|p: &str| p@).push(
                        protocols@[i as int]@,
                    ));
                },
                Err(e) => {
                    return Err(e);
                },
            }
            i = i + 1;
        }
        assert(protocols@.subrange(0, i as int) =~= protocols@);
        Ok(list)
    }

    /// Add a subprotocol to the list (in order of priority)
    ///
    /// Fails if the protocol name is invalid.
    pub fn with_protocol(self, protocol: &str) -> (r: Result<Self>)
        ensures
            r is Ok <==> valid_protocol_name(protocol@),
            r matches Ok(l) ==> l@ == self@.push(protocol@) && (self.wf() ==> l.wf()),
            r matches Err(e) ==> e matches Error::InvalidSubprotocol(m) && m@
                == invalid_protocol_message(protocol@),
    {
        let mut s = self;
        validate_protocol(protocol)?;
        s.protocols.push(protocol.to_owned());
        assert(s@ =~= self@.push(protocol@));
        Ok(s)
    }

    /// Check if the list is empty
    pub fn is_empty(&self) -> (r: bool)
        ensures
            r == (self@.len() == 0),
    {
        self.protocols.len() == 0
    }

    /// Get the number of subprotocols in the list
    pub fn len(&self) -> (r: usize)
        ensures
            r == self@.len(),
    {
        self.protocols.len()
    }

    /// Get all protocols in order
    pub fn protocols(&self) -> (r: &[String])
        ensures
            strings_view(r@) == self@,
    {
        self.protocols.as_slice()
    }

    /// Check if a specific protocol is in the list (case-sensitive)
    pub fn contains(&self, protocol: &str) -> (r: bool)
        ensures
            r == self@.contains(protocol@),
    {
        vec_contains_str(&self.protocols, protocol)
    }

    /// Generate the Sec-WebSocket-Protocol header value: the protocols in
    /// order of preference, separated by ", " (empty when there are none).
    pub fn to_header_value(&self) -> (r: String)
        ensures
            r@ == join(self@, ", "@),
    {
        let mut s = String::new();
        let mut i: usize = 0;
        while i < self.protocols.len()
            invariant
                i <= self@.len(),
                s@ == join(self@.subrange(0, i as int), ", "@),
            decreases self@.len() - i,
        {
            let ghost pre = self@.subrange(0, i as int);
            if i > 0 {
                s.append(", ");
            }
            s.append(self.protocols[i].as_str());
            proof {
                let post = self@.subrange(0, i + 1);
                assert(post.drop_last() =~= pre);
                assert(post.last() == self@[i as int]);
                if i == 0 {
                    assert(s@ =~= join(post, ", "@));
                } else {
                    assert(s@ =~= join(post, ", "@));
                }
            }
            i = i + 1;
        }
        assert(self@.subrange(0, i as int) =~= self@);
        s
    }

    /// The list's header value (what the list displays as).
    pub fn to_string(&self) -> (r: String)
        ensures
            r@ == join(self@, ", "@),
    {
        self.to_header_value()
    }

    /// Parse the server's subprotocol response
    ///
    /// Returns `None` when the server selected no protocol, the selected
    /// protocol when the client offered it, and an error otherwise.
    pub fn parse_response(&self, selected: Option<&str>) -> (r: Result<Option<String>>)
        ensures
            selected is None ==> r matches Ok(None),
            selected matches Some(p) ==> (r is Ok <==> self@.contains(p@)),
            selected matches Some(p) ==> (self@.contains(p@) ==> (r matches Ok(Some(q)) && q@
                == p@)),
            selected matches Some(p) ==> (!self@.contains(p@) ==> (r matches Err(
                Error::SubprotocolNegotiationFailed(m),
            ) && m@ == not_offered_message(p@))),
    {
        match selected {
            None => Ok(None),
            Some(protocol) => {
                if !self.contains(protocol) {
                    let mut m = String::from_str("Server selected protocol '");
                    m.append(protocol);
                    m.append("' not offered by client");
                    return Err(Error::SubprotocolNegotiationFailed(m));
                }
                Ok(Some(protocol.to_owned()))
            },
        }
    }

    /// Validate a subprotocol name according to RFC 6455
    pub fn validate_protocol(protocol: &str) -> (r: Result<()>)
        ensures
            r is Ok <==> valid_protocol_name(protocol@),
            r is Ok ==> no_space(protocol@),
            r matches Err(e) ==> e matches Error::InvalidSubprotocol(m) && m@
                == invalid_protocol_message(protocol@),
    {
        validate_protocol(protocol)
    }
}

impl Default for SubprotocolList {
    fn default() -> (r: Self)
        ensures
            r@ == Seq::<Seq<char>>::empty(),
    {
        Self::new()
    }
}

/// The names in order, each kept only where it first occurs.
pub open spec fn first_occurrences(s: Seq<Seq<char>>) -> Seq<Seq<char>>
    decreases s.len(),
{
    if s.len() == 0 {
        Seq::<Seq<char>>::empty()
    } else {
        let d = first_occurrences(s.drop_last());
        if d.contains(s.last()) {
            d
        } else {
            d.push(s.last())
        }
    }
}

/// Server-side subprotocol negotiator
///
/// Holds the supported subprotocols and selects the first protocol of a
/// client's offer that it supports, respecting the client's preference order.
#[derive(Debug, Clone)]
pub struct SubprotocolNegotiator {
    /// Set of supported subprotocols
    protocols: Vec<String>,
    /// Whether to support wildcard fallback (accept any protocol)
    allow_wildcard: bool,
}

impl View for SubprotocolNegotiator {
    type V = Seq<Seq<char>>;

    closed spec fn view(&self) -> Seq<Seq<char>> {
        strings_view(self.protocols@)
    }
}

impl SubprotocolNegotiator {
    /// Whether the negotiator accepts any protocol the client offers.
    pub closed spec fn wildcard(&self) -> bool {
        self.allow_wildcard
    }

    /// Every supported name is valid and occurs once.
    pub open spec fn wf(&self) -> bool {
        &&& forall|i: int| 0 <= i < self@.len() ==> valid_protocol_name(#[trigger] self@[i])
        &&& self@.no_duplicates()
    }

    /// The protocol this negotiator selects from a client's offer.
    pub open spec fn spec_negotiate(&self, client: Seq<Seq<char>>) -> Option<Seq<char>> {
        negotiate_spec(self@, self.wildcard(), client)
    }

    /// Create a new subprotocol negotiator
    pub fn new() -> (r: Self)
        ensures
            r@ == Seq::<Seq<char>>::empty(),
            !r.wildcard(),
            r.wf(),
    {
        SubprotocolNegotiator { protocols: Vec::new(), allow_wildcard: false }
    }

    /// Create a negotiator from a slice of supported protocols
    pub fn from_slice(protocols: &[&str]) -> (r: Result<Self>)
        ensures
            r is Ok <==> (forall|i: int|
                0 <= i < protocols@.len() ==> valid_protocol_name(#[trigger] protocols@[i]@)),
            r matches Ok(n) ==> n.wf() && !n.wildcard() && n@ == first_occurrences(
                protocols@.map_values(|p: &str| p@),
            ) && forall|p: Seq<char>|
                n@.contains(p) <==> exists|j: int| 0 <= j < protocols@.len() && #[trigger] protocols@[j]@ == p,
            r matches Err(e) ==> exists|i: int|
                0 <= i < protocols@.len() && !valid_protocol_name(#[trigger] protocols@[i]@)
                    && (e matches Error::InvalidSubprotocol(m) && m@ == invalid_protocol_message(
                    protocols@[i]@,
                )) && forall|j: int| 0 <= j < i ==> valid_protocol_name(protocols@[j]@),
    {
        let mut negotiator = Self::new();
        let mut i: usize = 0;
        while i < protocols.len()
            invariant
                i <= protocols@.len(),
                negotiator.wf(),
                !negotiator.wildcard(),
                forall|p: Seq<char>|
                    negotiator@.contains(p) <==> exists|j: int| 0 <= j < i && #[trigger] protocols@[j]@ == p,
                forall|j: int| 0 <= j < i ==> valid_protocol_name(#[trigger] protocols@[j]@),
                negotiator@ == first_occurrences(
                    protocols@.map_values(|p: &str| p@).take(i as int),
                ),
            decreases protocols@.len() - i,
        {
            let ghost prev = negotiator@;
            match negotiator.with_protocol(protocols[i]) {
                Ok(n) => {
                    negotiator = n;
                    proof {
                        let ps = protocols@.map_values(|p: &str| p@);
                        assert(ps.take(i + 1).drop_last() =~= ps.take(i as int));
                        assert(ps.take(i + 1).last() == protocols@[i as int]@);
                        assert forall|p: Seq<char>| negotiator@.contains(p) <==> exists|j: int| 0 <= j < i + 1 && #[trigger] protocols@[j]@ == p by {
                            if exists|j: int| 0 <= j < i + 1 && #[trigger] protocols@[j]@ == p {
                                let j = choose|j: int| 0 <= j < i + 1 && #[trigger] protocols@[j]@ == p;
                                if j < i {
                                    assert(prev.contains(p));
                                }
                            }
                            if prev.contains(p) {
                                let j = choose|j: int| 0 <= j < i && #[trigger] protocols@[j]@ == p;
                                assert(0 <= j < i + 1 && protocols@[j]@ == p);
                            }
                            if p == protocols@[i as int]@ {
                                assert(0 <= i < i + 1 && protocols@[i as int]@ == p);
                            }
                        }
                    }
                },
                Err(e) => {
                    return Err(e);
                },
            }
            i = i + 1;
        }
        assert(protocols@.map_values(|p: &str| p@).take(i as int) =~= protocols@.map_values(
            |p: &str| p@,
        ));
        Ok(negotiator)
    }

    /// Add a supported subprotocol (a name already supported is not added twice)
    pub fn with_protocol(self, protocol: &str) -> (r: Result<Self>)
        ensures
            r is Ok <==> valid_protocol_name(protocol@),
            r matches Ok(n) ==> n@ == (if self@.contains(protocol@) {
                self@
            } else {
                self@.push(protocol@)
            }) && n.wildcard() == self.wildcard() && (self.wf() ==> n.wf()) && forall|p: Seq<char>|
                n@.contains(p) <==> (self@.contains(p) || p == protocol@),
            r matches Err(e) ==> e matches Error::InvalidSubprotocol(m) && m@
                == invalid_protocol_message(protocol@),
    {
        let mut s = self;
        validate_protocol(protocol)?;
        if !vec_contains_str(&s.protocols, protocol) {
            s.protocols.push(protocol.to_owned());
            assert(s@ =~= self@.push(protocol@));
            proof {
                assert forall|k: int| 0 <= k < self@.len() implies self@[k] != protocol@ by {
                    if self@[k] == protocol@ {
                        assert(self@.contains(protocol@));
                    }
                }
                if self.wf() {
                    assert forall|i: int, j: int|
                        0 <= i < s@.len() && 0 <= j < s@.len() && i != j implies s@[i] != s@[j] by {
                        if i < self@.len() && j < self@.len() {
                            assert(s@[i] == self@[i] && s@[j] == self@[j]);
                        } else if i == self@.len() {
                            assert(s@[j] == self@[j]);
                        } else {
                            assert(s@[i] == self@[i]);
                        }
                    }
                }
                assert forall|p: Seq<char>| s@.contains(p) <==> (self@.contains(p) || p == protocol@) by {
                    if s@.contains(p) {
                        let k = choose|k: int| 0 <= k < s@.len() && s@[k] == p;
                        if k < self@.len() {
                            assert(self@[k] == p);
                        }
                    }
                    if self@.contains(p) {
                        let k = choose|k: int| 0 <= k < self@.len() && self@[k] == p;
                        assert(s@[k] == p);
                    }
                    if p == protocol@ {
                        assert(s@[self@.len() as int] == p);
                    }
                }
            }
        }
        Ok(s)
    }

    /// Enable wildcard support (accept any protocol)
    pub fn with_wildcard(self, allow: bool) -> (r: Self)
        ensures
            r@ == self@,
            r.wildcard() == allow,
            self.wf() ==> r.wf(),
    {
        let mut s = self;
        s.allow_wildcard = allow;
        s
    }

    /// Set whether to reject connections when no protocol match is found.
    ///
    /// The negotiator is unchanged: rejection is decided by `should_reject`.
    pub fn with_reject_on_no_match(self, _reject: bool) -> (r: Self)
        ensures
            r == self,
    {
        self
    }

    /// Check if the negotiator supports no protocols
    pub fn is_empty(&self) -> (r: bool)
        ensures
            r == (self@.len() == 0),
    {
        self.protocols.len() == 0
    }

    /// Get the number of supported protocols
    pub fn len(&self) -> (r: usize)
        ensures
            r == self@.len(),
    {
        self.protocols.len()
    }

    /// Get all supported protocols
    pub fn protocols(&self) -> (r: &[String])
        ensures
            strings_view(r@) == self@,
    {
        self.protocols.as_slice()
    }

    /// Check if a specific protocol is supported
    pub fn supports(&self, protocol: &str) -> (r: bool)
        ensures
            r == self@.contains(protocol@),
    {
        vec_contains_str(&self.protocols, protocol)
    }

    /// Negotiate the best matching subprotocol from a client's offer
    ///
    /// Returns `None` when the client offers nothing; the client's first
    /// preference when wildcard support is on; otherwise the first protocol
    /// of the client's list that the server supports, or `None`.
    pub fn negotiate(&self, client_protocols: &SubprotocolList) -> (r: Option<String>)
        ensures
            r is None <==> self.spec_negotiate(client_protocols@) is None,
            r matches Some(p) ==> self.spec_negotiate(client_protocols@) == Some(p@),
    {
        if client_protocols.is_empty() {
            return None;
        }
        if self.allow_wildcard {
            return Some(client_protocols.protocols[0].clone());
        }
        let ghost client = client_protocols@;
        let mut i: usize = 0;
        while i < client_protocols.protocols.len()
            invariant
                i <= client.len(),
                client == client_protocols@,
                client.len() > 0,
                !self.wildcard(),
                first_supported_from(self@, client, 0) == first_supported_from(self@, client, i as int),
            decreases client.len() - i,
        {
            assert(client[i as int] == client_protocols.protocols@[i as int]@);
            if self.supports(client_protocols.protocols[i].as_str()) {
                let r = client_protocols.protocols[i].clone();
                return Some(r);
            }
            i = i + 1;
        }
        None
    }

    /// Check if negotiation should result in connection rejection: the
    /// client offered protocols and none matched.
    pub fn should_reject(&self, client_protocols: &SubprotocolList) -> (r: bool)
        ensures
            r == (client_protocols@.len() > 0 && self.spec_negotiate(client_protocols@) is None),
    {
        !client_protocols.is_empty() && self.negotiate(client_protocols).is_none()
    }

    /// Parse Sec-WebSocket-Protocol header from client handshake
    ///
    /// Splits the value at commas, trims each piece, and keeps the pieces
    /// that are valid subprotocol names (empty and invalid ones are skipped).
    pub fn parse_header(header_value: &str) -> (r: SubprotocolList)
        ensures
            r@ == parse_header_spec(header_value@),
            r.wf(),
    {
        let n = header_value.unicode_len();
        let ghost h = header_value@;
        let mut out: Vec<String> = Vec::new();
        let mut cur = String::new();
        let mut i: usize = 0;
        proof {
            assert(h.subrange(0, 0) =~= Seq::<char>::empty());
        }
        while i < n
            invariant
                n == h.len(),
                h == header_value@,
                i <= n,
                split_on(h.subrange(0, i as int), ',').len() >= 1,
                cur@ == split_on(h.subrange(0, i as int), ',').last(),
                strings_view(out@) == keep_valid(
                    split_on(h.subrange(0, i as int), ',').drop_last().map_values(
                        |p: Seq<char>| trim(p),
                    ),
                ),
                forall|k: int| 0 <= k < out@.len() ==> valid_protocol_name(#[trigger] out@[k]@),
                forall|k: int| 0 <= k < out@.len() ==> no_space(#[trigger] out@[k]@),
            decreases n - i,
        {
            let c = header_value.get_char(i);
            let ghost pre = h.subrange(0, i as int);
            let ghost post = h.subrange(0, i + 1);
            proof {
                assert(post.drop_last() =~= pre);
                assert(post.last() == c);
                lemma_split_on_nonempty(pre, ',');
            }
            if c == ',' {
                let ghost old_out = strings_view(out@);
                let t = trim_str(cur.as_str());
                if validate_protocol(t.as_str()).is_ok() {
                    out.push(t);
                }
                cur = String::new();
                proof {
                    let sp = split_on(pre, ',');
                    assert(split_on(post, ',') == sp.push(Seq::<char>::empty()));
                    let mapped_new = split_on(post, ',').drop_last().map_values(|p: Seq<char>| trim(p));
                    let mapped_old = sp.drop_last().map_values(|p: Seq<char>| trim(p));
                    assert(split_on(post, ',').drop_last() =~= sp);
                    assert(sp =~= sp.drop_last().push(sp.last()));
                    assert(mapped_new =~= mapped_old.push(trim(sp.last())));
                    assert(mapped_new.drop_last() =~= mapped_old);
                    assert(strings_view(out@) =~= keep_valid(mapped_new));
                }
            } else {
                push_char(&mut cur, c);
                proof {
                    let sp = split_on(pre, ',');
                    assert(split_on(post, ',') == sp.update(sp.len() - 1, sp.last().push(c)));
                    assert(split_on(post, ',').drop_last() =~= sp.drop_last());
                }
            }
            i = i + 1;
        }
        let t = trim_str(cur.as_str());
        if validate_protocol(t.as_str()).is_ok() {
            out.push(t);
        }
        proof {
            assert(h.subrange(0, n as int) =~= h);
            assert(forall|k: int| 0 <= k < out@.len() ==> no_space(#[trigger] out@[k]@));
            let sp = split_on(h, ',');
            let mapped = sp.map_values(|p: Seq<char>| trim(p));
            assert(sp =~= sp.drop_last().push(sp.last()));
            assert(mapped.drop_last() =~= sp.drop_last().map_values(|p: Seq<char>| trim(p)));
            assert(mapped.last() == trim(cur@));
            assert(strings_view(out@) =~= keep_valid(mapped));
        }
        SubprotocolList { protocols: out }
    }
}

impl Default for SubprotocolNegotiator {
    fn default() -> (r: Self)
        ensures
            r@ == Seq::<Seq<char>>::empty(),
            !r.wildcard(),
    {
        Self::new()
    }
}

proof fn lemma_first_supported_from(server: Seq<Seq<char>>, client: Seq<Seq<char>>, i: int)
    requires
        0 <= i,
    ensures
        first_supported_from(server, client, i) matches Some(p) ==> exists|j: int|
            i <= j < client.len() && client[j] == p && server.contains(p) && forall|k: int|
                i <= k < j ==> !server.contains(#[trigger] client[k]),
        first_supported_from(server, client, i) is None ==> forall|k: int|
            i <= k < client.len() ==> !server.contains(#[trigger] client[k]),
    decreases client.len() - i,
{
    if i < client.len() && !server.contains(client[i]) {
        lemma_first_supported_from(server, client, i + 1);
        if let Some(p) = first_supported_from(server, client, i) {
            let j = choose|j: int|
                i + 1 <= j < client.len() && client[j] == p && server.contains(p) && forall|k: int|
                    i + 1 <= k < j ==> !server.contains(#[trigger] client[k]);
            assert forall|k: int| i <= k < j implies !server.contains(#[trigger] client[k]) by {
                if k > i {
                }
            }
        }
    }
}

/// The protocol a server selects is one the client offered (so the client
/// accepts the server's answer); without wildcard support it is one the
/// server supports, and every protocol the client preferred to it is one the
/// server does not support.
pub proof fn law_negotiated_protocol_is_offered(n: SubprotocolNegotiator, client: SubprotocolList, p: Seq<char>)
    requires
        n.spec_negotiate(client@) == Some(p),
    ensures
        client@.contains(p),
        !n.wildcard() ==> n@.contains(p) && exists|j: int|
            0 <= j < client@.len() && client@[j] == p && forall|k: int|
                0 <= k < j ==> !n@.contains(#[trigger] client@[k]),
        n.wildcard() ==> p == client@[0],
{
    if n.wildcard() {
        assert(client@[0] == p);
    } else {
        lemma_first_supported_from(n@, client@, 0);
        let j = choose|j: int|
            0 <= j < client@.len() && client@[j] == p && n@.contains(p) && forall|k: int|
                0 <= k < j ==> !n@.contains(#[trigger] client@[k]);
        assert(client@[j] == p);
    }
}

/// No protocol is selected exactly when the client offers none, or the
/// server (without wildcard support) supports none of the offered ones.
pub proof fn law_no_selection(n: SubprotocolNegotiator, client: SubprotocolList)
    ensures
        n.spec_negotiate(client@) is None <==> (client@.len() == 0 || (!n.wildcard() && forall|k: int|
            0 <= k < client@.len() ==> !n@.contains(#[trigger] client@[k]))),
{
    lemma_first_supported_from(n@, client@, 0);
    if client@.len() > 0 && !n.wildcard() && n.spec_negotiate(client@) is Some {
        let p = n.spec_negotiate(client@).unwrap();
        let j = choose|j: int|
            0 <= j < client@.len() && client@[j] == p && n@.contains(p) && forall|k: int|
                0 <= k < j ==> !n@.contains(#[trigger] client@[k]);
        assert(n@.contains(client@[j]));
    }
}

/// Splitting after appending text without separators extends the last piece.
proof fn lemma_split_append(s: Seq<char>, t: Seq<char>, sep: char)
    requires
        forall|i: int| 0 <= i < t.len() ==> t[i] != sep,
    ensures
        split_on(s + t, sep) == split_on(s, sep).update(
            split_on(s, sep).len() - 1,
            split_on(s, sep).last() + t,
        ),
    decreases t.len(),
{
    lemma_split_on_nonempty(s, sep);
    if t.len() == 0 {
        assert(s + t =~= s);
        assert(split_on(s, sep).last() + t =~= split_on(s, sep).last());
        assert(split_on(s, sep).update(split_on(s, sep).len() - 1, split_on(s, sep).last())
            =~= split_on(s, sep));
    } else {
        let t0 = t.drop_last();
        lemma_split_append(s, t0, sep);
        assert((s + t).drop_last() =~= s + t0);
        assert((s + t).last() == t.last());
        let sp = split_on(s, sep);
        let rest = split_on(s + t0, sep);
        assert(rest.last() == sp.last() + t0);
        assert(rest.last().push(t.last()) =~= sp.last() + t);
        assert(split_on(s + t, sep) =~= sp.update(sp.len() - 1, sp.last() + t));
    }
}

/// The pieces of a header value made by joining names with ", ": the first
/// name, then each following name after a space.
pub open spec fn joined_pieces(ps: Seq<Seq<char>>) -> Seq<Seq<char>> {
    if ps.len() == 0 {
        seq![Seq::<char>::empty()]
    } else {
        Seq::new(
            ps.len(),
            |i: int|
                if i == 0 {
                    ps[0]
                } else {
                    seq![' '] + ps[i]
                },
        )
    }
}

proof fn lemma_split_join(ps: Seq<Seq<char>>)
    requires
        forall|i: int, j: int| 0 <= i < ps.len() && 0 <= j < ps[i].len() ==> ps[i][j] != ',',
    ensures
        split_on(join(ps, ", "@), ',') == joined_pieces(ps),
    decreases ps.len(),
{
    reveal_strlit(", ");
    if ps.len() == 0 {
        assert(split_on(join(ps, ", "@), ',') =~= joined_pieces(ps));
    } else if ps.len() == 1 {
        lemma_split_append(Seq::<char>::empty(), ps[0], ',');
        assert(Seq::<char>::empty() + ps[0] =~= ps[0]);
        assert(split_on(join(ps, ", "@), ',') =~= joined_pieces(ps));
    } else {
        let q = ps.drop_last();
        lemma_split_join(q);
        let jq = join(q, ", "@);
        let last = ps.last();
        assert(join(ps, ", "@) == jq + ", "@ + last);
        let with_comma = jq.push(',');
        assert(jq + ", "@ + last =~= with_comma + (seq![' '] + last));
        assert(with_comma.drop_last() =~= jq);
        assert(split_on(with_comma, ',') == split_on(jq, ',').push(Seq::<char>::empty()));
        lemma_split_append(with_comma, seq![' '] + last, ',');
        assert(Seq::<char>::empty() + (seq![' '] + last) =~= seq![' '] + last);
        assert(split_on(join(ps, ", "@), ',') =~= joined_pieces(ps));
    }
}

proof fn lemma_trim_name(p: Seq<char>)
    requires
        valid_protocol_name(p),
        no_space(p),
    ensures
        trim(p) == p,
        trim(seq![' '] + p) == p,
{
    assert(!is_ws(p[0]));
    assert(!is_ws(p.last()));
    assert(trim_start(p) == p);
    assert((seq![' '] + p).drop_first() =~= p);
    assert(trim_start(seq![' '] + p) == p);
}

proof fn lemma_keep_valid_all(ps: Seq<Seq<char>>)
    requires
        forall|i: int| 0 <= i < ps.len() ==> valid_protocol_name(#[trigger] ps[i]),
    ensures
        keep_valid(ps) == ps,
    decreases ps.len(),
{
    if ps.len() > 0 {
        lemma_keep_valid_all(ps.drop_last());
        assert(ps.drop_last().push(ps.last()) =~= ps);
    }
}

/// A subprotocol list comes back from its header value: parsing what
/// `to_header_value` writes gives the same names, in the same order.
pub proof fn law_header_value_roundtrip(l: SubprotocolList)
    requires
        l.wf(),
    ensures
        parse_header_spec(join(l@, ", "@)) == l@,
{
    let ps = l@;
    assert forall|i: int, j: int| 0 <= i < ps.len() && 0 <= j < ps[i].len() implies ps[i][j]
        != ',' by {
        assert(valid_protocol_name(ps[i]));
        assert(valid_protocol_char(ps[i][j]));
    }
    lemma_split_join(ps);
    let pieces = joined_pieces(ps);
    let trimmed = pieces.map_values(|p: Seq<char>| trim(p));
    if ps.len() == 0 {
        assert(trim(Seq::<char>::empty()) =~= Seq::<char>::empty());
        assert(trimmed =~= seq![Seq::<char>::empty()]);
        assert(trimmed.drop_last() =~= Seq::<Seq<char>>::empty());
        assert(keep_valid(trimmed.drop_last()) =~= Seq::<Seq<char>>::empty());
        assert(!valid_protocol_name(trimmed.last()));
        assert(keep_valid(trimmed) =~= ps);
    } else {
        assert forall|i: int| 0 <= i < ps.len() implies #[trigger] trimmed[i] == ps[i] by {
            assert(valid_protocol_name(ps[i]) && no_space(ps[i]));
            lemma_trim_name(ps[i]);
        }
        assert(trimmed =~= ps);
        assert forall|i: int| 0 <= i < ps.len() implies valid_protocol_name(#[trigger] ps[i]) by {
        }
        lemma_keep_valid_all(ps);
    }
}

} // verus!

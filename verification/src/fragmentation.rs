//! WebSocket message fragmentation and reassembly (RFC 6455)
//!
//! The [`Fragmenter`] splits a message into frames of bounded size: the
//! first frame carries the message's opcode, the following ones the
//! continuation opcode, and only the last has the FIN bit set. The
//! [`Reassembler`] collects the frames of each connection and rebuilds the
//! messages, discarding reassemblies that take longer than its timeout.
use vstd::prelude::*;
use bytes::Bytes;
use std::time::{Duration, Instant};
use std::collections::HashMap;
use vstd::std_specs::iter::IteratorSpec;
use crate::error::{Error, Result};
use crate::message::{Frame, Message, MessageType, bytes_view};
use crate::time::{duration_nanos, nanos_since};
use crate::text::{hex2, push_hex2};
use crate::assoc::{
    distinct_keys, lemma_to_map_equal, map_sum, entries_sum, lemma_entries_sum,
    lemma_entries_sum_prefix,
};

verus! {

broadcast use vstd::std_specs::hash::group_hash_axioms;

/// Default maximum frame size (16KB)
pub const DEFAULT_MAX_FRAME_SIZE: usize = 16 * 1024;

/// Continuation opcode
pub const OPCODE_CONTINUATION: u8 = 0x0;
/// Text opcode
pub const OPCODE_TEXT: u8 = 0x1;
/// Binary opcode
pub const OPCODE_BINARY: u8 = 0x2;
/// Close opcode
pub const OPCODE_CLOSE: u8 = 0x8;
/// Ping opcode
pub const OPCODE_PING: u8 = 0x9;
/// Pong opcode
pub const OPCODE_PONG: u8 = 0xA;

/// Connection identifier for tracking fragmented messages
pub type ConnectionId = u64;

/// The opcode of an unfragmented frame carrying a message of type `t`.
pub open spec fn opcode_of(t: MessageType) -> u8 {
    match t {
        MessageType::Text => 0x1,
        MessageType::Binary => 0x2,
        MessageType::Ping => 0x9,
        MessageType::Pong => 0xA,
        MessageType::Close => 0x8,
        MessageType::Continuation => 0x0,
    }
}

/// The opcode of the first frame of a fragmented message of type `t`
/// (binary for every type but text).
pub open spec fn first_opcode_of(t: MessageType) -> u8 {
    match t {
        MessageType::Text => 0x1,
        _ => 0x2,
    }
}

/// The number of frames a message of `n` bytes takes with frames of at most `m` bytes.
pub open spec fn frame_count(n: nat, m: nat) -> nat {
    if n <= m {
        1
    } else {
        (((n + m - 1) as nat) / m) as nat
    }
}

/// The bytes of the `i`-th frame when `p` is cut into frames of `m` bytes.
pub open spec fn chunk(p: Seq<u8>, m: nat, i: int) -> Seq<u8> {
    p.subrange(i * m, if (i + 1) * m <= p.len() {
        (i + 1) * m
    } else {
        p.len() as int
    })
}

/// The frames that a message of type `t` with payload `p` is split into,
/// each given as (FIN bit, opcode, payload).
pub open spec fn split_spec(t: MessageType, p: Seq<u8>, m: nat) -> Seq<(bool, u8, Seq<u8>)> {
    if p.len() <= m {
        seq![(true, opcode_of(t), p)]
    } else {
        Seq::new(
            frame_count(p.len(), m),
            |i: int|
                (
                    i == frame_count(p.len(), m) - 1,
                    if i == 0 {
                        first_opcode_of(t)
                    } else {
                        0x0
                    },
                    chunk(p, m, i),
                ),
        )
    }
}

/// A frame as plain values: (FIN bit, opcode, payload).
pub open spec fn frame_view(f: Frame) -> (bool, u8, Seq<u8>) {
    (f.fin, f.opcode, f.data())
}

proof fn lemma_div_ceil(n: nat, m: nat, k: nat)
    requires
        m > 0,
        k * m < n + m,
        n <= k * m,
    ensures
        ((n + m - 1) as nat) / m == k,
{
    assert(((n + m - 1) as int) / (m as int) == k as int) by (nonlinear_arith)
        requires
            m > 0,
            k * m < n + m,
            n <= k * m,
    {
        let q = ((n + m - 1) as int) / (m as int);
        let r = ((n + m - 1) as int) % (m as int);
        assert((n + m - 1) as int == q * m + r);
    }
}

/// Message fragmenter that splits large messages into multiple frames
#[derive(Debug, Clone)]
pub struct Fragmenter {
    /// Maximum payload size per frame
    max_frame_size: usize,
}

impl Fragmenter {
    /// The maximum payload size per frame.
    pub closed spec fn spec_max(&self) -> nat {
        self.max_frame_size as nat
    }

    /// The maximum frame size is at least 125 bytes.
    pub open spec fn wf(&self) -> bool {
        self.spec_max() >= 125
    }

    /// Create a new fragmenter with the specified maximum frame size
    /// (at least 125 bytes, the minimum for valid WebSocket frames).
    pub fn new(max_frame_size: usize) -> (r: Self)
        requires
            max_frame_size >= 125,
        ensures
            r.spec_max() == max_frame_size,
            r.wf(),
    {
        Fragmenter { max_frame_size }
    }

    /// Get the maximum frame size
    pub fn max_frame_size(&self) -> (r: usize)
        ensures
            r == self.spec_max(),
    {
        self.max_frame_size
    }

    /// Split a message into frames: a single frame with FIN set when the
    /// payload fits in one frame, otherwise frames of `max_frame_size` bytes
    /// (the last may be shorter) where the first carries the message's opcode
    /// (binary for any type but text), the others the continuation opcode,
    /// and only the last has FIN set.
    pub fn split_message(&self, message: &Message) -> (r: Vec<Frame>)
        requires
            self.wf(),
        ensures
            r@.map_values(|f: Frame| frame_view(f)) == split_spec(
                message.msg_type,
                message.data(),
                self.spec_max(),
            ),
            forall|i: int| 0 <= i < r@.len() ==> !(#[trigger] r@[i]).rsv1 && !r@[i].rsv2 && !r@[i].rsv3,
    {
        let payload: &[u8] = &message.payload;
        let n = payload.len();
        let m = self.max_frame_size;
        let ghost p = message.data();
        if n <= m {
            let opcode = match message.msg_type {
                MessageType::Text => OPCODE_TEXT,
                MessageType::Binary => OPCODE_BINARY,
                MessageType::Ping => OPCODE_PING,
                MessageType::Pong => OPCODE_PONG,
                MessageType::Close => OPCODE_CLOSE,
                MessageType::Continuation => OPCODE_CONTINUATION,
            };
            let mut frames: Vec<Frame> = Vec::new();
            frames.push(Frame::new(true, opcode, message.payload.clone()));
            assert(frames@.map_values(|f: Frame| frame_view(f)) =~= split_spec(
                message.msg_type,
                p,
                m as nat,
            ));
            return frames;
        }
        let ghost k = frame_count(n as nat, m as nat);
        let mut frames: Vec<Frame> = Vec::new();
        let mut offset: usize = 0;
        let mut i: usize = 0;
        proof {
            assert(1 <= k && k <= n) by (nonlinear_arith)
                requires
                    k == ((n + m - 1) as int) / (m as int),
                    n > m,
                    m >= 125,
            ;
        }
        while offset < n
            invariant
                payload@ == p,
                n == p.len(),
                m == self.spec_max(),
                m >= 125,
                n > m,
                offset <= n,
                offset < n ==> offset == i * m && i < k,
                offset == n ==> i == k,
                frames@.len() == i,
                k == frame_count(n as nat, m as nat),
                1 <= k <= n,
                forall|j: int|
                    0 <= j < i ==> frame_view(#[trigger] frames@[j]) == split_spec(
                        message.msg_type,
                        p,
                        m as nat,
                    )[j],
                forall|j: int|
                    0 <= j < i ==> !(#[trigger] frames@[j]).rsv1 && !frames@[j].rsv2 && !frames@[j].rsv3,
            decreases n - offset,
        {
            let end = if n - offset > m {
                offset + m
            } else {
                n
            };
            let is_last = end == n;
            let opcode = if i == 0 {
                match message.msg_type {
                    MessageType::Text => OPCODE_TEXT,
                    _ => OPCODE_BINARY,
                }
            } else {
                OPCODE_CONTINUATION
            };
            let chunk_bytes = vstd::slice::slice_subrange(payload, offset, end);
            frames.push(Frame::new(is_last, opcode, Bytes::copy_from_slice(chunk_bytes)));
            proof {
                assert(offset + m == (i + 1) * m) by (nonlinear_arith)
                    requires
                        offset == i * m,
                ;
                if is_last {
                    lemma_div_ceil(n as nat, m as nat, (i + 1) as nat);
                } else {
                    assert(n > (i + 1) * m);
                    assert((i + 1) < k) by {
                        if (i + 1) >= k {
                            assert(k * m <= (i + 1) * m) by (nonlinear_arith)
                                requires
                                    k <= i + 1,
                            ;
                            assert((n + m - 1) < (k + 1) * m) by (nonlinear_arith)
                                requires
                                    k == ((n + m - 1) as int) / (m as int),
                                    m > 0,
                            ;
                            assert(n <= k * m) by (nonlinear_arith)
                                requires
                                    (n + m - 1) < (k + 1) * m,
                            ;
                        }
                    }
                }
                let sp = split_spec(message.msg_type, p, m as nat);
                assert(sp[i as int] == (i == k - 1, if i == 0 {
                    first_opcode_of(message.msg_type)
                } else {
                    0x0
                }, chunk(p, m as nat, i as int)));
                assert(chunk(p, m as nat, i as int) =~= chunk_bytes@);
                assert(frame_view(frames@[i as int]) == sp[i as int]);
            }
            offset = end;
            i = i + 1;
        }
        proof {
            assert(i == k);
            assert(frames@.map_values(|f: Frame| frame_view(f)) =~= split_spec(
                message.msg_type,
                p,
                m as nat,
            ));
        }
        frames
    }

    /// Calculate number of frames needed for a message size
    pub fn calculate_frame_count(&self, message_size: usize) -> (r: usize)
        requires
            self.wf(),
        ensures
            r == frame_count(message_size as nat, self.spec_max()),
    {
        if message_size <= self.max_frame_size {
            1
        } else {
            let q = message_size / self.max_frame_size;
            assert(q < message_size) by (nonlinear_arith)
                requires
                    q == message_size / self.max_frame_size,
                    self.max_frame_size >= 125,
                    message_size > self.max_frame_size,
            ;
            let r = if message_size % self.max_frame_size == 0 {
                q
            } else {
                q + 1
            };
            proof {
                let n = message_size as nat;
                let m = self.max_frame_size as nat;
                assert(r * m < n + m && n <= r * m) by (nonlinear_arith)
                    requires
                        m > 0,
                        q == n / m,
                        r == (if n % m == 0 { q as int } else { q + 1 }),
                {
                    assert(n == q * m + n % m);
                }
                lemma_div_ceil(n, m, r as nat);
            }
            r
        }
    }

    /// Check if a message needs fragmentation (is longer than a frame)
    pub fn needs_fragmentation(&self, message: &Message) -> (r: bool)
        ensures
            r == (message.data().len() > self.spec_max()),
    {
        message.len() > self.max_frame_size
    }
}

impl Default for Fragmenter {
    fn default() -> (r: Self)
        ensures
            r.spec_max() == DEFAULT_MAX_FRAME_SIZE,
            r.wf(),
    {
        Self::new(DEFAULT_MAX_FRAME_SIZE)
    }
}

/// The default reassembly timeout (5 seconds).
pub fn default_reassembly_timeout() -> (d: Duration)
    ensures
        duration_nanos(d) == 5_000_000_000,
{
    Duration::from_secs(5)
}

/// A partial message as plain values: the opcode of its first frame, the
/// bytes received so far, and when its first frame arrived (nanoseconds on
/// the reassembler's clock).
pub type PartialView = (u8, Seq<u8>, u128);

/// The bytes of a sequence of fragments, one after the other.
pub open spec fn concat_all(fs: Seq<Seq<u8>>) -> Seq<u8>
    decreases fs.len(),
{
    if fs.len() == 0 {
        Seq::<u8>::empty()
    } else {
        concat_all(fs.drop_last()) + fs.last()
    }
}

/// The bytes of each fragment.
pub open spec fn fragments_view(fs: Seq<Bytes>) -> Seq<Seq<u8>> {
    fs.map_values(|b: Bytes| bytes_view(b))
}

/// Whether an opcode is one of a control frame (close, ping, pong).
pub open spec fn is_control_opcode(op: u8) -> bool {
    op == 0x8 || op == 0x9 || op == 0xA
}

/// The message type of a control opcode.
pub open spec fn control_type(op: u8) -> MessageType {
    if op == 0x8 {
        MessageType::Close
    } else if op == 0x9 {
        MessageType::Ping
    } else {
        MessageType::Pong
    }
}

/// The type of a message rebuilt from frames whose first opcode is `op`:
/// text for the text opcode, binary otherwise.
pub open spec fn assembled_type(op: u8) -> MessageType {
    if op == 0x1 {
        MessageType::Text
    } else {
        MessageType::Binary
    }
}

/// A reassembly started at `received_at` has expired at `now` when more than
/// `timeout` nanoseconds have passed (no time passes when the clock reads
/// earlier than the start).
pub open spec fn is_expired_at(received_at: u128, timeout: nat, now: u128) -> bool {
    now > received_at && (now - received_at) > timeout
}

/// A partially reassembled message
#[derive(Debug)]
pub struct PartialMessage {
    /// Original message opcode (text or binary)
    opcode: u8,
    /// Received fragments in order
    fragments: Vec<Bytes>,
    /// When the first fragment arrived (nanoseconds on the reassembler's clock)
    received_at: u128,
    /// Total size of all fragments received so far
    total_size: usize,
}

impl View for PartialMessage {
    type V = PartialView;

    closed spec fn view(&self) -> PartialView {
        (self.opcode, concat_all(fragments_view(self.fragments@)), self.received_at)
    }
}

impl PartialMessage {
    /// The stored size is the number of bytes received.
    pub closed spec fn wf(&self) -> bool {
        self.total_size == concat_all(fragments_view(self.fragments@)).len()
    }

    /// Create a new partial message from its first fragment, received at `received_at`.
    pub fn new(opcode: u8, first_fragment: Bytes, received_at: u128) -> (r: Self)
        ensures
            r.wf(),
            r@ == (opcode, bytes_view(first_fragment), received_at),
    {
        let fragment_len = first_fragment.len();
        let mut fragments: Vec<Bytes> = Vec::new();
        fragments.push(first_fragment);
        let r = PartialMessage { opcode, fragments, received_at, total_size: fragment_len };
        proof {
            let fv = fragments_view(r.fragments@);
            assert(fv.len() == 1 && fv.last() == bytes_view(first_fragment));
            assert(fv.drop_last() =~= Seq::<Seq<u8>>::empty());
            assert(concat_all(fv.drop_last()) =~= Seq::<u8>::empty());
            assert(concat_all(fv) =~= bytes_view(first_fragment));
        }
        r
    }

    /// Add a continuation fragment after the ones received so far.
    pub fn add_fragment(&mut self, fragment: Bytes)
        requires
            old(self).wf(),
            old(self)@.1.len() + bytes_view(fragment).len() <= usize::MAX,
        ensures
            final(self).wf(),
            final(self)@ == (old(self)@.0, old(self)@.1 + bytes_view(fragment), old(self)@.2),
    {
        let ghost before = self.fragments@;
        self.total_size = self.total_size + fragment.len();
        self.fragments.push(fragment);
        proof {
            assert(fragments_view(self.fragments@).drop_last() =~= fragments_view(before));
        }
    }

    /// Whether this partial message has expired at `now` for the given timeout.
    pub fn is_expired(&self, timeout: Duration, now: u128) -> (r: bool)
        ensures
            r == is_expired_at(self@.2, duration_nanos(timeout), now),
    {
        now > self.received_at && now - self.received_at > timeout.as_nanos()
    }

    /// Get the total reassembled size
    pub fn total_size(&self) -> (r: usize)
        requires
            self.wf(),
        ensures
            r == self@.1.len(),
    {
        self.total_size
    }

    /// Reassemble all fragments into a complete message: text when the first
    /// opcode was text, binary otherwise, with the fragments' bytes in order.
    pub fn assemble(self) -> (m: Message)
        requires
            self.wf(),
        ensures
            m.msg_type == assembled_type(self@.0),
            m.data() == self@.1,
    {
        let msg_type = if self.opcode == OPCODE_TEXT {
            MessageType::Text
        } else {
            MessageType::Binary
        };
        let ghost fv = fragments_view(self.fragments@);
        let mut payload: Vec<u8> = Vec::with_capacity(self.total_size);
        let mut i: usize = 0;
        while i < self.fragments.len()
            invariant
                i <= self.fragments@.len(),
                fv == fragments_view(self.fragments@),
                payload@ == concat_all(fv.take(i as int)),
            decreases self.fragments@.len() - i,
        {
            let fragment: &[u8] = &self.fragments[i];
            let ghost before = payload@;
            payload.extend_from_slice(fragment);
            proof {
                assert(payload@ =~= before + fv[i as int]);
                assert(fv.take(i + 1).drop_last() =~= fv.take(i as int));
            }
            i = i + 1;
        }
        proof {
            assert(fv.take(i as int) =~= fv);
        }
        Message { msg_type, payload: Bytes::from(payload) }
    }
}

/// Why a frame was refused by the reassembler.
#[derive(Debug, Clone, Copy, PartialEq, Eq, Structural)]
pub enum ReassemblyFault {
    /// A continuation frame arrived with no message in progress.
    ContinuationWithoutStart,
    /// A new text or binary frame arrived while a message was in progress.
    OverlappingStart,
    /// The frame's opcode is not one the reassembler knows.
    UnknownOpcode(u8),
}

/// The error the reassembler returns for a fault.
pub open spec fn fault_error(e: Error, f: ReassemblyFault) -> bool {
    match f {
        ReassemblyFault::ContinuationWithoutStart => e matches Error::ProtocolViolation(m) && m@
            == "Continuation frame received without starting frame"@,
        ReassemblyFault::OverlappingStart => e matches Error::ProtocolViolation(m) && m@
            == "New fragmented message started before previous completed"@,
        ReassemblyFault::UnknownOpcode(op) => e matches Error::InvalidFrame(m) && m@
            == "Unknown opcode: 0x"@ + hex2(op as nat),
    }
}

/// The outcome of one frame: a complete message (type and bytes), nothing
/// yet, or a fault.
pub type Ingested = core::result::Result<Option<(MessageType, Seq<u8>)>, ReassemblyFault>;

/// Whether a returned value is the outcome `o`.
pub open spec fn ingested_result(r: Result<Option<Message>>, o: Ingested) -> bool {
    match o {
        Ok(None) => r matches Ok(None),
        Ok(Some((t, d))) => r matches Ok(Some(msg)) && msg.msg_type == t && msg.data() == d,
        Err(f) => r matches Err(e) && fault_error(e, f),
    }
}

/// The partial messages after the one of connection `id` is dropped if it
/// has expired at `now`.
pub open spec fn after_cleanup(
    m: Map<u64, PartialView>,
    timeout: nat,
    id: u64,
    now: u128,
) -> Map<u64, PartialView> {
    if m.contains_key(id) && is_expired_at(m[id].2, timeout, now) {
        m.remove(id)
    } else {
        m
    }
}

/// The partial messages that have not expired at `now`.
pub open spec fn unexpired(m: Map<u64, PartialView>, timeout: nat, now: u128) -> Map<
    u64,
    PartialView,
> {
    Map::new(
        |k: u64| m.contains_key(k) && !is_expired_at(m[k].2, timeout, now),
        |k: u64| m[k],
    )
}

/// What the reassembler does with a frame (FIN bit, opcode, payload) of
/// connection `id` arriving at `now`, given the partial messages `m`: the
/// outcome and the partial messages afterwards.
///
/// A control frame (close, ping, pong) is a complete message by itself and
/// leaves everything unchanged. Otherwise the connection's partial message
/// is first dropped if it has expired; then a continuation frame extends it
/// (and completes it when FIN is set), a text or binary frame starts a new
/// one (or is complete by itself when FIN is set), and any other opcode is
/// refused.
pub open spec fn ingest_spec(
    m: Map<u64, PartialView>,
    timeout: nat,
    frame: (bool, u8, Seq<u8>),
    id: u64,
    now: u128,
) -> (Ingested, Map<u64, PartialView>) {
    let fin = frame.0;
    let op = frame.1;
    let data = frame.2;
    if is_control_opcode(op) {
        (Ok(Some((control_type(op), data))), m)
    } else {
        let c = after_cleanup(m, timeout, id, now);
        if op == 0x0 {
            if !c.contains_key(id) {
                (Err(ReassemblyFault::ContinuationWithoutStart), c)
            } else {
                let p = c[id];
                if fin {
                    (Ok(Some((assembled_type(p.0), p.1 + data))), c.remove(id))
                } else {
                    (Ok(None), c.insert(id, (p.0, p.1 + data, p.2)))
                }
            }
        } else if op == 0x1 || op == 0x2 {
            if c.contains_key(id) {
                (Err(ReassemblyFault::OverlappingStart), c)
            } else if fin {
                (Ok(Some((assembled_type(op), data))), c)
            } else {
                (Ok(None), c.insert(id, (op, data, now)))
            }
        } else {
            (Err(ReassemblyFault::UnknownOpcode(op)), c)
        }
    }
}

/// The bytes a partial message holds.
pub open spec fn partial_bytes() -> spec_fn(PartialView) -> nat {
    |p: PartialView| p.1.len()
}

/// The total number of bytes held by the partial messages of `m`.
pub open spec fn pending_bytes(m: Map<u64, PartialView>) -> nat {
    map_sum(m, partial_bytes())
}

/// Message reassembler that collects fragmented frames
///
/// The reassembler tracks one partial message per connection and times out
/// incomplete reassemblies to prevent memory exhaustion. Times are read in
/// nanoseconds since the reassembler was created.
#[derive(Debug)]
pub struct Reassembler {
    /// Partial messages being reassembled, by connection ID
    incomplete: HashMap<ConnectionId, PartialMessage>,
    /// Timeout for incomplete reassemblies
    timeout: Duration,
    /// The instant the reassembler's clock counts from
    epoch: Instant,
}

impl View for Reassembler {
    type V = Map<u64, PartialView>;

    closed spec fn view(&self) -> Map<u64, PartialView> {
        self.incomplete@.map_values(|p: PartialMessage| p@)
    }
}

impl Reassembler {
    /// The reassembly timeout.
    pub closed spec fn spec_timeout(&self) -> Duration {
        self.timeout
    }

    /// The reassembly timeout in nanoseconds.
    pub open spec fn timeout_nanos(&self) -> nat {
        duration_nanos(self.spec_timeout())
    }

    /// Each partial message knows its size.
    pub closed spec fn wf(&self) -> bool {
        forall|k: u64| #[trigger] self.incomplete@.contains_key(k) ==> self.incomplete@[k].wf()
    }

    /// Create a new reassembler with the specified timeout
    pub fn new(timeout: Duration) -> (r: Self)
        ensures
            r.wf(),
            r@ == Map::<u64, PartialView>::empty(),
            r.spec_timeout() == timeout,
    {
        let r = Reassembler { incomplete: HashMap::new(), timeout, epoch: Instant::now() };
        assert(r@ =~= Map::<u64, PartialView>::empty());
        r
    }

    /// Get the reassembly timeout
    pub fn timeout(&self) -> (r: Duration)
        ensures
            r == self.spec_timeout(),
    {
        self.timeout
    }

    /// Whether connection `id` has a partial message.
    fn has(&self, id: ConnectionId) -> (r: bool)
        ensures
            r == self@.contains_key(id),
    {
        self.incomplete.contains_key(&id)
    }

    /// Take out the partial message of connection `id`.
    fn take_entry(&mut self, id: ConnectionId) -> (r: PartialMessage)
        requires
            old(self).wf(),
            old(self)@.contains_key(id),
        ensures
            final(self).wf(),
            final(self).timeout == old(self).timeout,
            r.wf(),
            old(self)@[id] == r@,
            final(self)@ == old(self)@.remove(id),
    {
        let r = self.incomplete.remove(&id);
        assert(self@ =~= old(self)@.remove(id));
        r.unwrap()
    }

    /// Add an entry for a connection that has none.
    fn put_entry(&mut self, id: ConnectionId, partial: PartialMessage)
        requires
            old(self).wf(),
            partial.wf(),
            !old(self)@.contains_key(id),
        ensures
            final(self).wf(),
            final(self).timeout == old(self).timeout,
            final(self)@ == old(self)@.insert(id, partial@),
    {
        let ghost pv = partial@;
        let _ = self.incomplete.insert(id, partial);
        assert(self@ =~= old(self)@.insert(id, pv));
    }

    /// Drop the partial message of connection `id` if it has expired at `now`.
    fn cleanup_expired(&mut self, connection_id: ConnectionId, now: u128)
        requires
            old(self).wf(),
        ensures
            final(self).wf(),
            final(self).timeout == old(self).timeout,
            final(self)@ == after_cleanup(old(self)@, old(self).timeout_nanos(), connection_id, now),
    {
        let expired = match self.incomplete.get(&connection_id) {
            Some(p) => p.is_expired(self.timeout, now),
            None => false,
        };
        if expired {
            let _ = self.take_entry(connection_id);
        }
    }

    /// Whether an opcode is for a control frame
    fn is_control_frame(opcode: u8) -> (r: bool)
        ensures
            r == is_control_opcode(opcode),
    {
        opcode == OPCODE_CLOSE || opcode == OPCODE_PING || opcode == OPCODE_PONG
    }

    /// The error for an opcode the reassembler does not know.
    fn unknown_opcode(opcode: u8) -> (e: Error)
        ensures
            fault_error(e, ReassemblyFault::UnknownOpcode(opcode)),
    {
        let mut m = String::from_str("Unknown opcode: 0x");
        push_hex2(&mut m, opcode as u32);
        Error::InvalidFrame(m)
    }

    /// Convert an unfragmented frame to a message
    fn frame_to_message(frame: &Frame) -> (r: Result<Message>)
        ensures
            frame.opcode == 0x1 || frame.opcode == 0x2 || is_control_opcode(frame.opcode) ==> (
            r matches Ok(m) && m.data() == frame.data() && m.msg_type == (if is_control_opcode(
                frame.opcode,
            ) {
                control_type(frame.opcode)
            } else {
                assembled_type(frame.opcode)
            })),
            !(frame.opcode == 0x1 || frame.opcode == 0x2 || is_control_opcode(frame.opcode)) ==> (
            r matches Err(e) && fault_error(e, ReassemblyFault::UnknownOpcode(frame.opcode))),
    {
        let msg_type = match frame.opcode {
            OPCODE_TEXT => MessageType::Text,
            OPCODE_BINARY => MessageType::Binary,
            OPCODE_CLOSE => MessageType::Close,
            OPCODE_PING => MessageType::Ping,
            OPCODE_PONG => MessageType::Pong,
            _ => {
                return Err(Self::unknown_opcode(frame.opcode));
            },
        };
        Ok(Message { msg_type, payload: frame.payload.clone() })
    }

    /// Ingest a frame of connection `connection_id` arriving at `now`
    /// (nanoseconds on the reassembler's clock), as `ingest_spec` says:
    ///
    /// - `Ok(Some(message))` - a complete message was reassembled, or the
    ///   frame is a control frame or an unfragmented message
    /// - `Ok(None)` - more frames are needed
    /// - `Err(Error)` - a continuation frame without a starting frame (also
    ///   when the started message has timed out), a new message started
    ///   before the previous one completed, or an unknown opcode
    pub fn ingest_frame_at(&mut self, frame: &Frame, connection_id: ConnectionId, now: u128) -> (r:
        Result<Option<Message>>)
        requires
            old(self).wf(),
            ({
                let c = after_cleanup(old(self)@, old(self).timeout_nanos(), connection_id, now);
                frame.opcode == 0x0 && c.contains_key(connection_id) ==> c[connection_id].1.len()
                    + frame.data().len() <= usize::MAX
            }),
        ensures
            final(self).wf(),
            final(self).spec_timeout() == old(self).spec_timeout(),
            ingested_result(
                r,
                ingest_spec(
                    old(self)@,
                    old(self).timeout_nanos(),
                    frame_view(*frame),
                    connection_id,
                    now,
                ).0,
            ),
            final(self)@ == ingest_spec(
                old(self)@,
                old(self).timeout_nanos(),
                frame_view(*frame),
                connection_id,
                now,
            ).1,
    {
        if Self::is_control_frame(frame.opcode) {
            match Self::frame_to_message(frame) {
                Ok(m) => {
                    return Ok(Some(m));
                },
                Err(e) => {
                    return Err(e);
                },
            }
        }
        let is_fin = frame.fin;
        let opcode = frame.opcode;
        self.cleanup_expired(connection_id, now);
        if opcode == OPCODE_CONTINUATION {
            if !self.has(connection_id) {
                Err(Error::protocol_violation("Continuation frame received without starting frame"))
            } else {
                let key = connection_id;
                let mut partial = self.take_entry(key);
                partial.add_fragment(frame.payload.clone());
                if is_fin {
                    Ok(Some(partial.assemble()))
                } else {
                    proof {
                        assert(self@.insert(key, partial@) =~= old(self)@.remove(key).insert(
                            key,
                            partial@,
                        ));
                    }
                    self.put_entry(key, partial);
                    Ok(None)
                }
            }
        } else if opcode == OPCODE_TEXT || opcode == OPCODE_BINARY {
            if self.has(connection_id) {
                return Err(
                    Error::protocol_violation(
                        "New fragmented message started before previous completed",
                    ),
                );
            }
            if is_fin {
                match Self::frame_to_message(frame) {
                    Ok(m) => Ok(Some(m)),
                    Err(e) => Err(e),
                }
            } else {
                let partial = PartialMessage::new(opcode, frame.payload.clone(), now);
                self.put_entry(connection_id, partial);
                Ok(None)
            }
        } else {
            Err(Self::unknown_opcode(opcode))
        }
    }

    /// The reassembler's clock: nanoseconds since it was created, as read
    /// now (a 64-bit count, widened).
    fn clock(&self) -> (r: u128)
        ensures
            r <= u64::MAX,
    {
        nanos_since(&self.epoch) as u128
    }

    /// Ingest a frame and potentially return a complete message, at the time
    /// read from the reassembler's clock: the outcome is that of
    /// `ingest_frame_at` for some reading of the clock.
    pub fn ingest_frame(&mut self, frame: &Frame, connection_id: ConnectionId) -> (r: Result<
        Option<Message>,
    >)
        requires
            old(self).wf(),
            frame.opcode == 0x0 && old(self)@.contains_key(connection_id) ==> old(
                self,
            )@[connection_id].1.len() + frame.data().len() <= usize::MAX,
        ensures
            final(self).wf(),
            final(self).spec_timeout() == old(self).spec_timeout(),
            exists|now: u128|
                {
                    &&& ingested_result(
                        r,
                        #[trigger] ingest_spec(
                            old(self)@,
                            old(self).timeout_nanos(),
                            frame_view(*frame),
                            connection_id,
                            now,
                        ).0,
                    )
                    &&& final(self)@ == ingest_spec(
                        old(self)@,
                        old(self).timeout_nanos(),
                        frame_view(*frame),
                        connection_id,
                        now,
                    ).1
                },
    {
        let now = self.clock();
        self.ingest_frame_at(frame, connection_id, now)
    }

    /// Abort reassembly for a connection: returns whether a partial message
    /// was discarded.
    pub fn abort(&mut self, connection_id: ConnectionId) -> (r: bool)
        requires
            old(self).wf(),
        ensures
            final(self).wf(),
            final(self).spec_timeout() == old(self).spec_timeout(),
            r == old(self)@.contains_key(connection_id),
            final(self)@ == old(self)@.remove(connection_id),
    {
        if self.has(connection_id) {
            let _ = self.take_entry(connection_id);
            true
        } else {
            assert(self@.remove(connection_id) =~= self@);
            false
        }
    }

    /// Get the number of partial messages currently being reassembled
    pub fn in_progress_count(&self) -> (r: usize)
        requires
            self.wf(),
        ensures
            self@.dom().finite(),
            r == self@.dom().len(),
    {
        assert(self@.dom() =~= self.incomplete@.dom());
        self.incomplete.len()
    }

    /// The connection IDs that have a partial message, each once.
    fn connection_ids(&self) -> (r: Vec<ConnectionId>)
        ensures
            r@.no_duplicates(),
            forall|k: u64| self@.contains_key(k) <==> r@.contains(k),
    {
        let mut ids: Vec<ConnectionId> = Vec::new();
        let ghost ks = vstd::std_specs::hash::spec_keys_iter(&self.incomplete).remaining();
        for k in it: self.incomplete.keys()
            invariant
                ids@ == it.seq().take(it.index() as int).map_values(|x: &u64| *x),
        {
            ids.push(*k);
            proof {
                assert(it.seq().take(it.index() + 1) =~= it.seq().take(it.index() as int).push(k));
            }
        }
        proof {
            assert(ids@ =~= ks.map_values(|x: &u64| *x));
            assert(ks.unref() =~= ids@);
            assert(ks.unref().to_set() == self.incomplete@.dom());
            assert forall|k: u64| self@.contains_key(k) <==> ids@.contains(k) by {
                assert(self@.contains_key(k) <==> self.incomplete@.dom().contains(k));
                assert(ids@.to_set().contains(k) <==> ids@.contains(k));
            }
        }
        ids
    }

    /// Get the total size of all partial messages being tracked
    pub fn in_progress_size(&self) -> (r: usize)
        requires
            self.wf(),
            self@.dom().finite() ==> pending_bytes(self@) <= usize::MAX,
        ensures
            self@.dom().finite(),
            r == pending_bytes(self@),
    {
        let ids = self.connection_ids();
        let ghost m = self@;
        let ghost es = ids@.map_values(|k: u64| (k, m[k]));
        proof {
            assert(distinct_keys(es)) by {
                assert forall|a: int, b: int|
                    0 <= a < es.len() && 0 <= b < es.len() && a != b implies es[a].0 != es[b].0 by {
                    assert(es[a].0 == ids@[a] && es[b].0 == ids@[b]);
                }
            }
            assert forall|k: u64| m.contains_key(k) <==> exists|i: int| 0 <= i < es.len() && es[i].0 == k by {
                if m.contains_key(k) {
                    assert(ids@.contains(k));
                    let i = choose|i: int| 0 <= i < ids@.len() && ids@[i] == k;
                    assert(es[i].0 == k);
                }
                if exists|i: int| 0 <= i < es.len() && es[i].0 == k {
                    let i = choose|i: int| 0 <= i < es.len() && es[i].0 == k;
                    assert(ids@[i] == k);
                    assert(ids@.contains(k));
                }
            }
            assert forall|i: int| 0 <= i < es.len() implies m[#[trigger] es[i].0] == es[i].1 by {}
            lemma_to_map_equal(es, m);
            lemma_entries_sum(es, partial_bytes());
        }
        let mut total: usize = 0;
        let mut i: usize = 0;
        while i < ids.len()
            invariant
                self.wf(),
                m == self@,
                i <= ids@.len(),
                es == ids@.map_values(|k: u64| (k, m[k])),
                forall|k: u64| m.contains_key(k) <==> ids@.contains(k),
                total == entries_sum(es.take(i as int), partial_bytes()),
                entries_sum(es, partial_bytes()) <= usize::MAX,
            decreases ids@.len() - i,
        {
            proof {
                lemma_entries_sum_prefix(es, partial_bytes(), i + 1, es.len() as int);
                assert(es.take(es.len() as int) =~= es);
                assert(es.take(i + 1).drop_last() =~= es.take(i as int));
                assert(ids@.contains(ids@[i as int]));
            }
            let p = self.incomplete.get(&ids[i]).unwrap();
            total = total + p.total_size();
            i = i + 1;
        }
        proof {
            assert(es.take(i as int) =~= es);
        }
        total
    }

    /// Drop every partial message that has expired at `now`.
    pub fn cleanup_all_expired_at(&mut self, now: u128)
        requires
            old(self).wf(),
        ensures
            final(self).wf(),
            final(self).spec_timeout() == old(self).spec_timeout(),
            final(self)@ == unexpired(old(self)@, old(self).timeout_nanos(), now),
    {
        let ids = self.connection_ids();
        let ghost m = self@;
        let ghost tn = self.timeout_nanos();
        let mut kept: HashMap<ConnectionId, PartialMessage> = HashMap::new();
        let mut i: usize = 0;
        while i < ids.len()
            invariant
                i <= ids@.len(),
                ids@.no_duplicates(),
                forall|k: u64| m.contains_key(k) <==> ids@.contains(k),
                tn == duration_nanos(self.timeout),
                self.timeout == old(self).timeout,
                self.wf(),
                forall|k: u64| #[trigger] kept@.contains_key(k) ==> kept@[k].wf(),
                forall|k: u64|
                    #[trigger] self@.contains_key(k) <==> (m.contains_key(k) && !ids@.take(
                        i as int,
                    ).contains(k)),
                forall|k: u64| #[trigger] self@.contains_key(k) ==> self@[k] == m[k],
                forall|k: u64|
                    #[trigger] kept@.contains_key(k) <==> (ids@.take(i as int).contains(k)
                        && m.contains_key(k) && !is_expired_at(m[k].2, tn, now)),
                forall|k: u64| #[trigger] kept@.contains_key(k) ==> kept@[k]@ == m[k],
            decreases ids@.len() - i,
        {
            let k = ids[i];
            proof {
                assert(ids@.contains(k));
                assert(!ids@.take(i as int).contains(k)) by {
                    if ids@.take(i as int).contains(k) {
                        let j = choose|j: int| 0 <= j < i && #[trigger] ids@.take(i as int)[j] == k;
                        assert(ids@[j] == ids@[i as int]);
                    }
                }
                assert forall|x: u64| ids@.take(i + 1).contains(x) <==> (ids@.take(i as int).contains(
                    x,
                ) || x == k) by {
                    if ids@.take(i + 1).contains(x) {
                        let j = choose|j: int| 0 <= j < i + 1 && #[trigger] ids@.take(i + 1)[j] == x;
                        if j < i {
                            assert(ids@.take(i as int)[j] == x);
                        }
                    }
                    if ids@.take(i as int).contains(x) {
                        let j = choose|j: int| 0 <= j < i && #[trigger] ids@.take(i as int)[j] == x;
                        assert(ids@.take(i + 1)[j] == x);
                    }
                    if x == k {
                        assert(ids@.take(i + 1)[i as int] == x);
                    }
                }
            }
            assert(self@.contains_key(k));
            let ghost kept0 = kept@;
            let p = self.take_entry(k);
            assert(p@ == m[k]);
            let expired = p.is_expired(self.timeout, now);
            if !expired {
                let _ = kept.insert(k, p);
                assert(kept@ == kept0.insert(k, p));
            }
            proof {
                assert forall|x: u64| #[trigger] kept@.contains_key(x) <==> (ids@.take(i + 1).contains(x)
                    && m.contains_key(x) && !is_expired_at(m[x].2, tn, now)) by {
                    if x != k {
                        assert(kept@.contains_key(x) == kept0.contains_key(x));
                    }
                }
                assert forall|x: u64| #[trigger] kept@.contains_key(x) implies kept@[x]@ == m[x] by {
                    if x != k {
                        assert(kept@[x] == kept0[x]);
                    }
                }
            }
            i = i + 1;
        }
        proof {
            assert(ids@.take(ids@.len() as int) =~= ids@);
        }
        self.incomplete = kept;
        assert(self@ =~= unexpired(m, tn, now));
    }

    /// Clean up all expired partial messages across all connections, at the
    /// time read from the reassembler's clock.
    pub fn cleanup_all_expired(&mut self)
        requires
            old(self).wf(),
        ensures
            final(self).wf(),
            final(self).spec_timeout() == old(self).spec_timeout(),
            exists|now: u128| final(self)@ == #[trigger] unexpired(old(self)@, old(self).timeout_nanos(), now),
    {
        let now = self.clock();
        self.cleanup_all_expired_at(now);
    }
}

impl Default for Reassembler {
    fn default() -> (r: Self)
        ensures
            r.wf(),
            r@ == Map::<u64, PartialView>::empty(),
            duration_nanos(r.spec_timeout()) == 5_000_000_000,
    {
        Self::new(default_reassembly_timeout())
    }
}

/// The outcomes and the partial messages after feeding `frames` of
/// connection `id` one by one, the `i`-th arriving at `times[i]`.
pub open spec fn feed(
    m: Map<u64, PartialView>,
    timeout: nat,
    frames: Seq<(bool, u8, Seq<u8>)>,
    id: u64,
    times: Seq<u128>,
) -> (Seq<Ingested>, Map<u64, PartialView>)
    decreases frames.len(),
{
    if frames.len() == 0 {
        (Seq::<Ingested>::empty(), m)
    } else {
        let step = ingest_spec(m, timeout, frames[0], id, times[0]);
        let rest = feed(step.1, timeout, frames.drop_first(), id, times.drop_first());
        (seq![step.0] + rest.0, rest.1)
    }
}

/// `n` outcomes: nothing yet, until `last`.
pub open spec fn pending_then(n: nat, last: Ingested) -> Seq<Ingested> {
    Seq::new(
        n,
        |i: int|
            if i == n - 1 {
                last
            } else {
                Ok(None)
            },
    )
}

/// The concatenated payloads of frames.
pub open spec fn frames_payload(fs: Seq<(bool, u8, Seq<u8>)>) -> Seq<u8> {
    concat_all(fs.map_values(|f: (bool, u8, Seq<u8>)| f.2))
}

proof fn lemma_count_bounds(n: nat, m: nat)
    requires
        m > 0,
        n > m,
    ensures
        frame_count(n, m) >= 2,
        (frame_count(n, m) - 1) * m < n,
        n <= frame_count(n, m) * m,
{
    let k = frame_count(n, m);
    assert(k == ((n + m - 1) as nat) / m);
    assert(k >= 2 && (k - 1) * m < n && n <= k * m) by (nonlinear_arith)
        requires
            m > 0,
            n > m,
            k == ((n + m - 1) as int) / (m as int),
    {
        let q = ((n + m - 1) as int) / (m as int);
        let r = ((n + m - 1) as int) % (m as int);
        assert((n + m - 1) as int == q * m + r);
    }
}

/// Where the `i`-th frame of a payload longer than one frame starts and ends.
proof fn lemma_chunk(p: Seq<u8>, max: nat, i: int)
    requires
        max > 0,
        p.len() > max,
        0 <= i < frame_count(p.len(), max),
    ensures
        i * max < p.len(),
        (i + 1) * max == i * max + max,
        i + 1 < frame_count(p.len(), max) ==> (i + 1) * max < p.len(),
        i + 1 == frame_count(p.len(), max) ==> (i + 1) * max >= p.len(),
        chunk(p, max, i) == p.subrange(
            i * max,
            if (i + 1) * max <= p.len() {
                (i + 1) * max
            } else {
                p.len() as int
            },
        ),
        chunk(p, max, i).len() <= max,
        chunk(p, max, i).len() > 0,
{
    let k = frame_count(p.len(), max);
    lemma_count_bounds(p.len(), max);
    assert((i + 1) * max == i * max + max) by (nonlinear_arith);
    assert(i * max <= (k - 1) * max) by (nonlinear_arith)
        requires
            i <= k - 1,
    ;
    if i + 1 < k {
        assert((i + 1) * max <= (k - 1) * max) by (nonlinear_arith)
            requires
                i + 1 <= k - 1,
        ;
    }
}

/// Feeding the frames of a split message from the `j`-th on, once the
/// first `j` have started the connection's partial message.
proof fn lemma_feed_tail(
    m: Map<u64, PartialView>,
    timeout: nat,
    t: MessageType,
    p: Seq<u8>,
    max: nat,
    id: u64,
    times: Seq<u128>,
    j: int,
)
    requires
        max > 0,
        p.len() > max,
        !m.contains_key(id),
        times.len() == frame_count(p.len(), max),
        forall|i: int| 0 <= i < times.len() ==> #[trigger] times[i] <= times[0] + timeout,
        1 <= j < frame_count(p.len(), max),
    ensures
        ({
            let k = frame_count(p.len(), max);
            feed(
                m.insert(id, (first_opcode_of(t), p.subrange(0, j * max), times[0])),
                timeout,
                split_spec(t, p, max).subrange(j as int, k as int),
                id,
                times.subrange(j as int, k as int),
            ) == (pending_then((k - j) as nat, Ok(Some((assembled_type(first_opcode_of(t)), p)))), m)
        }),
    decreases frame_count(p.len(), max) - j,
{
    let k = frame_count(p.len(), max);
    lemma_count_bounds(p.len(), max);
    lemma_chunk(p, max, j);
    let fs = split_spec(t, p, max);
    let op0 = first_opcode_of(t);
    let prefix = p.subrange(0, j * max);
    let s = m.insert(id, (op0, prefix, times[0]));
    let sub = fs.subrange(j, k as int);
    let ts = times.subrange(j, k as int);
    assert(sub.len() == k - j);
    assert(sub[0] == fs[j]);
    assert(ts[0] == times[j]);
    let f = fs[j];
    assert(f == (j == k - 1, 0x0u8, chunk(p, max, j)));
    assert(times[j] <= times[0] + timeout);
    assert(s.contains_key(id) && s[id] == (op0, prefix, times[0]));
    assert(!is_expired_at(times[0], timeout, times[j]));
    let c = after_cleanup(s, timeout, id, times[j]);
    assert(c == s);
    let joined = prefix + chunk(p, max, j);
    let step = ingest_spec(s, timeout, f, id, times[j]);
    let last: Ingested = Ok(Some((assembled_type(op0), p)));
    if j == k - 1 {
        assert(joined =~= p);
        assert(step == (last, c.remove(id)));
        assert(s.remove(id) =~= m);
        assert(sub.drop_first() =~= Seq::<(bool, u8, Seq<u8>)>::empty());
        let rest = feed(m, timeout, sub.drop_first(), id, ts.drop_first());
        assert(rest == (Seq::<Ingested>::empty(), m));
        assert(feed(s, timeout, sub, id, ts) == (seq![last] + rest.0, rest.1));
        assert(seq![last] + rest.0 =~= pending_then((k - j) as nat, last));
    } else {
        assert(joined =~= p.subrange(0, (j + 1) * max));
        let s1 = m.insert(id, (op0, p.subrange(0, (j + 1) * max), times[0]));
        assert(step.0 == Ok::<Option<(MessageType, Seq<u8>)>, ReassemblyFault>(None));
        assert(step.1 =~= s1);
        assert(sub.drop_first() =~= fs.subrange(j + 1, k as int));
        assert(ts.drop_first() =~= times.subrange(j + 1, k as int));
        lemma_feed_tail(m, timeout, t, p, max, id, times, j + 1);
        let rest = feed(s1, timeout, sub.drop_first(), id, ts.drop_first());
        assert(rest == (pending_then((k - j - 1) as nat, last), m));
        assert(feed(s, timeout, sub, id, ts) == (seq![step.0] + rest.0, rest.1));
        assert(seq![step.0] + rest.0 =~= pending_then((k - j) as nat, last));
    }
}

/// The frames a message is split into: as many as `frame_count` says, none
/// longer than the maximum frame size, all but the last without FIN, the
/// first with the message's opcode and the others with the continuation
/// opcode when there are several, and their payloads put back together are
/// the message's payload.
pub proof fn law_split_frames(t: MessageType, p: Seq<u8>, max: nat)
    requires
        max > 0,
    ensures
        split_spec(t, p, max).len() == frame_count(p.len(), max),
        frames_payload(split_spec(t, p, max)) == p,
        forall|i: int|
            0 <= i < split_spec(t, p, max).len() ==> (#[trigger] split_spec(t, p, max)[i]).2.len()
                <= max,
        forall|i: int|
            0 <= i < split_spec(t, p, max).len() ==> (#[trigger] split_spec(t, p, max)[i]).0 == (i
                == split_spec(t, p, max).len() - 1),
        split_spec(t, p, max).len() == 1 ==> split_spec(t, p, max)[0].1 == opcode_of(t),
        split_spec(t, p, max).len() > 1 ==> split_spec(t, p, max)[0].1 == first_opcode_of(t),
        forall|i: int|
            0 < i < split_spec(t, p, max).len() ==> (#[trigger] split_spec(t, p, max)[i]).1 == 0x0,
{
    let fs = split_spec(t, p, max);
    let pays = fs.map_values(|f: (bool, u8, Seq<u8>)| f.2);
    if p.len() <= max {
        assert(pays.len() == 1 && pays.last() == p);
        assert(pays.drop_last() =~= Seq::<Seq<u8>>::empty());
        assert(concat_all(pays.drop_last()) =~= Seq::<u8>::empty());
        assert(concat_all(pays) =~= p);
    } else {
        let k = frame_count(p.len(), max);
        lemma_count_bounds(p.len(), max);
        assert forall|i: int| 0 <= i < fs.len() implies (#[trigger] fs[i]).2.len() <= max by {
            lemma_chunk(p, max, i);
        }
        lemma_concat_chunks(t, p, max, k as int);
        lemma_chunk(p, max, k - 1);
        assert(pays.take(k as int) =~= pays);
        assert(p.subrange(0, p.len() as int) =~= p);
    }
}

proof fn lemma_concat_chunks(t: MessageType, p: Seq<u8>, max: nat, i: int)
    requires
        max > 0,
        p.len() > max,
        0 <= i <= frame_count(p.len(), max),
    ensures
        ({
            let pays = split_spec(t, p, max).map_values(|f: (bool, u8, Seq<u8>)| f.2);
            concat_all(pays.take(i)) == p.subrange(
                0,
                if i * max <= p.len() {
                    i * max
                } else {
                    p.len() as int
                },
            )
        }),
    decreases i,
{
    let pays = split_spec(t, p, max).map_values(|f: (bool, u8, Seq<u8>)| f.2);
    let k = frame_count(p.len(), max);
    lemma_count_bounds(p.len(), max);
    if i == 0 {
        assert(i * max == 0) by (nonlinear_arith)
            requires
                i == 0,
        ;
        assert(pays.take(0) =~= Seq::<Seq<u8>>::empty());
        assert(concat_all(pays.take(0)) =~= Seq::<u8>::empty());
        assert(p.subrange(0, 0) =~= Seq::<u8>::empty());
    } else {
        lemma_concat_chunks(t, p, max, i - 1);
        lemma_chunk(p, max, i - 1);
        assert(pays.take(i).drop_last() =~= pays.take(i - 1));
        assert(pays.take(i).last() == pays[i - 1]);
        assert(pays[i - 1] == chunk(p, max, i - 1));
        assert((i - 1) * max <= p.len());
        assert(concat_all(pays.take(i)) == concat_all(pays.take(i - 1)) + chunk(p, max, i - 1));
        assert(concat_all(pays.take(i)) =~= p.subrange(
            0,
            if i * max <= p.len() {
                i * max
            } else {
                p.len() as int
            },
        ));
    }
}

/// What a reassembler gives back of a split message: feeding the frames
/// that a text or binary message (or a control message that fits in one
/// frame) is split into, to a connection with no message in progress, each
/// arriving within the timeout of the first, yields nothing until the last
/// frame, which yields the message's type and payload; the partial messages
/// are as they were before.
pub proof fn law_reassembly_roundtrip(
    m: Map<u64, PartialView>,
    timeout: nat,
    t: MessageType,
    p: Seq<u8>,
    max: nat,
    id: u64,
    times: Seq<u128>,
)
    requires
        max > 0,
        t == MessageType::Text || t == MessageType::Binary || (is_control_opcode(opcode_of(t))
            && p.len() <= max),
        !m.contains_key(id),
        times.len() == split_spec(t, p, max).len(),
        forall|i: int| 0 <= i < times.len() ==> #[trigger] times[i] <= times[0] + timeout,
    ensures
        feed(m, timeout, split_spec(t, p, max), id, times) == (
            pending_then(times.len(), Ok(Some((t, p)))),
            m,
        ),
{
    let fs = split_spec(t, p, max);
    if p.len() <= max {
        assert(fs.len() == 1 && fs[0] == (true, opcode_of(t), p));
        let step = ingest_spec(m, timeout, fs[0], id, times[0]);
        assert(after_cleanup(m, timeout, id, times[0]) == m);
        assert(step == (Ok::<Option<(MessageType, Seq<u8>)>, ReassemblyFault>(Some((t, p))), m));
        assert(fs.drop_first() =~= Seq::<(bool, u8, Seq<u8>)>::empty());
        let rest = feed(m, timeout, fs.drop_first(), id, times.drop_first());
        assert(rest == (Seq::<Ingested>::empty(), m));
        assert(feed(m, timeout, fs, id, times) == (seq![step.0] + rest.0, rest.1));
        assert(seq![step.0] + rest.0 =~= pending_then(times.len(), Ok(Some((t, p)))));
    } else {
        let k = frame_count(p.len(), max);
        lemma_count_bounds(p.len(), max);
        let op0 = first_opcode_of(t);
        assert(fs[0] == (false, op0, chunk(p, max, 0)));
        assert(chunk(p, max, 0) =~= p.subrange(0, 1 * (max as int)));
        let s1 = m.insert(id, (op0, p.subrange(0, 1 * (max as int)), times[0]));
        assert(ingest_spec(m, timeout, fs[0], id, times[0]) == (Ok::<
            Option<(MessageType, Seq<u8>)>,
            ReassemblyFault,
        >(None), s1));
        assert(fs.drop_first() =~= fs.subrange(1, k as int));
        assert(times.drop_first() =~= times.subrange(1, k as int));
        lemma_feed_tail(m, timeout, t, p, max, id, times, 1);
        assert(seq![Ok(None)] + pending_then((k - 1) as nat, Ok(Some((t, p)))) =~= pending_then(
            k,
            Ok(Some((t, p))),
        ));
    }
}

/// A control frame (close, ping, pong) is answered at once, as a message of
/// its own type with its payload, and leaves every partial message as it
/// was, that of its own connection included, whatever the FIN bit and the
/// time.
pub proof fn law_control_frame_leaves_partials(
    m: Map<u64, PartialView>,
    timeout: nat,
    fin: bool,
    op: u8,
    d: Seq<u8>,
    id: u64,
    now: u128,
)
    requires
        op == 0x8 || op == 0x9 || op == 0xA,
    ensures
        ingest_spec(m, timeout, (fin, op, d), id, now).1 == m,
        op == 0x8 ==> ingest_spec(m, timeout, (fin, op, d), id, now).0 == Ok::<
            Option<(MessageType, Seq<u8>)>,
            ReassemblyFault,
        >(Some((MessageType::Close, d))),
        op == 0x9 ==> ingest_spec(m, timeout, (fin, op, d), id, now).0 == Ok::<
            Option<(MessageType, Seq<u8>)>,
            ReassemblyFault,
        >(Some((MessageType::Ping, d))),
        op == 0xA ==> ingest_spec(m, timeout, (fin, op, d), id, now).0 == Ok::<
            Option<(MessageType, Seq<u8>)>,
            ReassemblyFault,
        >(Some((MessageType::Pong, d))),
{
}

/// A control frame between the fragments of a message does not disturb it:
/// a text frame without FIN, then a control frame, then the final
/// continuation, all of one connection with no message in progress and
/// within the timeout of the first, give nothing, the control message, and
/// the whole text message, with the partial messages as they were before.
pub proof fn law_control_between_fragments(
    m: Map<u64, PartialView>,
    timeout: nat,
    a: Seq<u8>,
    b: Seq<u8>,
    ctl_fin: bool,
    op: u8,
    d: Seq<u8>,
    id: u64,
    t0: u128,
    t1: u128,
    t2: u128,
)
    requires
        !m.contains_key(id),
        op == 0x8 || op == 0x9 || op == 0xA,
        t2 <= t0 + timeout,
    ensures
        ({
            let s0 = ingest_spec(m, timeout, (false, 0x1, a), id, t0);
            let s1 = ingest_spec(s0.1, timeout, (ctl_fin, op, d), id, t1);
            let s2 = ingest_spec(s1.1, timeout, (true, 0x0, b), id, t2);
            &&& s0.0 == Ok::<Option<(MessageType, Seq<u8>)>, ReassemblyFault>(None)
            &&& s1.0 is Ok && s1.0->Ok_0 is Some
            &&& s2.0 == Ok::<Option<(MessageType, Seq<u8>)>, ReassemblyFault>(
                Some((MessageType::Text, a + b)),
            )
            &&& s2.1 == m
        }),
{
    let s0 = ingest_spec(m, timeout, (false, 0x1, a), id, t0);
    assert(after_cleanup(m, timeout, id, t0) == m);
    assert(s0.1 == m.insert(id, (0x1u8, a, t0)));
    law_control_frame_leaves_partials(s0.1, timeout, ctl_fin, op, d, id, t1);
    assert(!is_expired_at(t0, timeout, t2));
    assert(after_cleanup(s0.1, timeout, id, t2) == s0.1);
    assert(s0.1.remove(id) =~= m);
}

} // verus!

//! Heartbeat/ping-pong keepalive for WebSocket connections
//!
//! Each ping carries the number of pings sent before it, as 8 big-endian
//! bytes; a pong that echoes the last ping is counted, any other pong is a
//! missed ping, and more than three missed pings in a row time the
//! connection out. Times are nanoseconds since the manager was created.
use vstd::prelude::*;
use std::time::{Duration, Instant};
use crate::config::HeartbeatConfig;
use crate::error::{Error, Result};
use crate::message::{Message, MessageType};
use crate::time::{duration_nanos, nanos_since};

verus! {

/// The 8 big-endian bytes of a number.
pub open spec fn be_bytes(n: u64) -> Seq<u8> {
    seq![
        (n >> 56u64) as u8,
        (n >> 48u64) as u8,
        (n >> 40u64) as u8,
        (n >> 32u64) as u8,
        (n >> 24u64) as u8,
        (n >> 16u64) as u8,
        (n >> 8u64) as u8,
        n as u8,
    ]
}

/// The number that 8 bytes encode in big-endian order.
pub open spec fn be_value(b: Seq<u8>) -> u64 {
    ((b[0] as u64) << 56u64) | ((b[1] as u64) << 48u64) | ((b[2] as u64) << 40u64) | ((
    b[3] as u64) << 32u64) | ((b[4] as u64) << 24u64) | ((b[5] as u64) << 16u64) | ((
    b[6] as u64) << 8u64) | (b[7] as u64)
}

/// The ping number a pong should echo when `count` pings were sent: the
/// last one's (0 when none was).
pub open spec fn expected_ping(count: u64) -> u64 {
    if count > 0 {
        (count - 1) as u64
    } else {
        0
    }
}

/// Whether a pong payload echoes the last of `count` pings.
pub open spec fn pong_matches(count: u64, payload: Seq<u8>) -> bool {
    payload.len() == 8 && be_value(payload) == expected_ping(count)
}

/// The time from `t` to `now` (none when the clock reads earlier).
pub open spec fn elapsed_since(t: u64, now: u64) -> nat {
    if now > t {
        (now - t) as nat
    } else {
        0
    }
}

/// Heartbeat manager
#[derive(Debug)]
pub struct HeartbeatManager {
    config: HeartbeatConfig,
    last_ping: Option<u64>,
    last_pong: Option<u64>,
    ping_count: u64,
    pong_count: u64,
    missed_pings: u8,
    epoch: Instant,
}

impl HeartbeatManager {
    /// The configuration.
    pub closed spec fn spec_config(&self) -> HeartbeatConfig {
        self.config
    }

    /// When the last ping was sent.
    pub closed spec fn spec_last_ping(&self) -> Option<u64> {
        self.last_ping
    }

    /// When the last matching pong arrived.
    pub closed spec fn spec_last_pong(&self) -> Option<u64> {
        self.last_pong
    }

    /// Pings sent.
    pub closed spec fn spec_ping_count(&self) -> u64 {
        self.ping_count
    }

    /// Matching pongs received.
    pub closed spec fn spec_pong_count(&self) -> u64 {
        self.pong_count
    }

    /// Pongs in a row that did not match.
    pub closed spec fn spec_missed(&self) -> u8 {
        self.missed_pings
    }

    /// Create a new heartbeat manager: nothing sent or received yet
    pub fn new(config: HeartbeatConfig) -> (r: Self)
        ensures
            r.spec_config() == config,
            r.spec_last_ping() is None,
            r.spec_last_pong() is None,
            r.spec_ping_count() == 0,
            r.spec_pong_count() == 0,
            r.spec_missed() == 0,
    {
        HeartbeatManager {
            config,
            last_ping: None,
            last_pong: None,
            ping_count: 0,
            pong_count: 0,
            missed_pings: 0,
            epoch: Instant::now(),
        }
    }

    /// Check if heartbeat is enabled
    pub fn is_enabled(&self) -> (r: bool)
        ensures
            r == self.spec_config().enabled,
    {
        self.config.enabled
    }

    /// Generate a ping message at time `now`: its payload is the number of
    /// pings sent before it (8 bytes, big-endian).
    pub fn ping_at(&mut self, now: u64) -> (r: Message)
        requires
            old(self).spec_ping_count() < u64::MAX,
        ensures
            r.msg_type == MessageType::Ping,
            r.data() == be_bytes(old(self).spec_ping_count()),
            final(self).spec_ping_count() == old(self).spec_ping_count() + 1,
            final(self).spec_last_ping() == Some(now),
            final(self).spec_config() == old(self).spec_config(),
            final(self).spec_last_pong() == old(self).spec_last_pong(),
            final(self).spec_pong_count() == old(self).spec_pong_count(),
            final(self).spec_missed() == old(self).spec_missed(),
    {
        let n = self.ping_count;
        let mut payload: Vec<u8> = Vec::new();
        payload.push((n >> 56u64) as u8);
        payload.push((n >> 48u64) as u8);
        payload.push((n >> 40u64) as u8);
        payload.push((n >> 32u64) as u8);
        payload.push((n >> 24u64) as u8);
        payload.push((n >> 16u64) as u8);
        payload.push((n >> 8u64) as u8);
        payload.push(n as u8);
        assert(payload@ =~= be_bytes(n));
        self.last_ping = Some(now);
        self.ping_count = n + 1;
        Message::ping(payload)
    }

    /// Generate a ping message now
    pub fn ping(&mut self) -> (r: Message)
        requires
            old(self).spec_ping_count() < u64::MAX,
        ensures
            r.msg_type == MessageType::Ping,
            r.data() == be_bytes(old(self).spec_ping_count()),
            final(self).spec_ping_count() == old(self).spec_ping_count() + 1,
            final(self).spec_last_ping() is Some,
            final(self).spec_config() == old(self).spec_config(),
            final(self).spec_last_pong() == old(self).spec_last_pong(),
            final(self).spec_pong_count() == old(self).spec_pong_count(),
            final(self).spec_missed() == old(self).spec_missed(),
    {
        let now = nanos_since(&self.epoch);
        self.ping_at(now)
    }

    /// Whether a pong payload echoes the last ping: 8 big-endian bytes
    /// holding the number of pings sent before it.
    pub fn answers_last_ping(&self, payload: &[u8]) -> (r: bool)
        ensures
            r == pong_matches(self.spec_ping_count(), payload@),
    {
        if payload.len() != 8 {
            return false;
        }
        let v: u64 = ((payload[0] as u64) << 56u64) | ((payload[1] as u64) << 48u64) | ((
        payload[2] as u64) << 40u64) | ((payload[3] as u64) << 32u64) | ((payload[4] as u64)
            << 24u64) | ((payload[5] as u64) << 16u64) | ((payload[6] as u64) << 8u64) | (
        payload[7] as u64);
        assert(v == be_value(payload@));
        let expected = if self.ping_count > 0 {
            self.ping_count - 1
        } else {
            0
        };
        v == expected
    }

    /// The period between pings, for the caller's timer; fails when the
    /// heartbeat is disabled.
    pub fn ping_interval(&self) -> (r: Result<Duration>)
        ensures
            self.spec_config().enabled ==> r == Ok::<Duration, Error>(self.spec_config().ping_interval),
            !self.spec_config().enabled ==> (r matches Err(Error::NotSupported(m)) && m@
                == "Heartbeat is disabled"@),
    {
        if !self.config.enabled {
            return Err(Error::not_supported("Heartbeat is disabled"));
        }
        Ok(self.config.ping_interval)
    }

    /// Handle a pong message arriving at `now`. A pong that echoes the last
    /// ping is counted and clears the missed pings; any other counts as a
    /// missed ping, and the fourth missed ping in a row (or later) is a
    /// timeout error.
    pub fn handle_pong_at(&mut self, payload: &[u8], now: u64) -> (r: Result<()>)
        requires
            pong_matches(old(self).spec_ping_count(), payload@) ==> old(self).spec_pong_count()
                < u64::MAX,
            !pong_matches(old(self).spec_ping_count(), payload@) ==> old(self).spec_missed() < 255,
        ensures
            final(self).spec_config() == old(self).spec_config(),
            final(self).spec_ping_count() == old(self).spec_ping_count(),
            final(self).spec_last_ping() == old(self).spec_last_ping(),
            pong_matches(old(self).spec_ping_count(), payload@) ==> {
                &&& r is Ok
                &&& final(self).spec_last_pong() == Some(now)
                &&& final(self).spec_pong_count() == old(self).spec_pong_count() + 1
                &&& final(self).spec_missed() == 0
            },
            !pong_matches(old(self).spec_ping_count(), payload@) ==> {
                &&& final(self).spec_last_pong() == old(self).spec_last_pong()
                &&& final(self).spec_pong_count() == old(self).spec_pong_count()
                &&& final(self).spec_missed() == old(self).spec_missed() + 1
                &&& (final(self).spec_missed() > 3 ==> r matches Err(Error::Timeout))
                &&& (final(self).spec_missed() <= 3 ==> r is Ok)
            },
    {
        if self.answers_last_ping(payload) {
            self.last_pong = Some(now);
            self.pong_count = self.pong_count + 1;
            self.missed_pings = 0;
            return Ok(());
        }
        self.missed_pings = self.missed_pings + 1;
        if self.missed_pings > 3 {
            Err(Error::Timeout)
        } else {
            Ok(())
        }
    }

    /// Handle a pong message now
    pub fn handle_pong(&mut self, payload: &[u8]) -> (r: Result<()>)
        requires
            pong_matches(old(self).spec_ping_count(), payload@) ==> old(self).spec_pong_count()
                < u64::MAX,
            !pong_matches(old(self).spec_ping_count(), payload@) ==> old(self).spec_missed() < 255,
        ensures
            final(self).spec_config() == old(self).spec_config(),
            final(self).spec_ping_count() == old(self).spec_ping_count(),
            final(self).spec_last_ping() == old(self).spec_last_ping(),
            pong_matches(old(self).spec_ping_count(), payload@) ==> {
                &&& r is Ok
                &&& final(self).spec_last_pong() is Some
                &&& final(self).spec_pong_count() == old(self).spec_pong_count() + 1
                &&& final(self).spec_missed() == 0
            },
            !pong_matches(old(self).spec_ping_count(), payload@) ==> {
                &&& final(self).spec_last_pong() == old(self).spec_last_pong()
                &&& final(self).spec_pong_count() == old(self).spec_pong_count()
                &&& final(self).spec_missed() == old(self).spec_missed() + 1
                &&& (final(self).spec_missed() > 3 ==> r matches Err(Error::Timeout))
                &&& (final(self).spec_missed() <= 3 ==> r is Ok)
            },
    {
        let now = nanos_since(&self.epoch);
        self.handle_pong_at(payload, now)
    }

    /// Whether the connection is alive at `now`: always when the heartbeat is
    /// disabled; otherwise when the last pong (or, before any pong, the last
    /// ping) is more recent than the ping timeout; and before any ping.
    pub open spec fn alive_at(&self, now: u64) -> bool {
        !self.spec_config().enabled || match self.spec_last_pong() {
            Some(t) => elapsed_since(t, now) < duration_nanos(self.spec_config().ping_timeout),
            None => match self.spec_last_ping() {
                Some(t) => elapsed_since(t, now) < duration_nanos(self.spec_config().ping_timeout),
                None => true,
            },
        }
    }

    /// Whether the connection is alive at `now` (see `alive_at`)
    pub fn is_alive_at(&self, now: u64) -> (r: bool)
        ensures
            r == self.alive_at(now),
    {
        if !self.config.enabled {
            return true;
        }
        let timeout = self.config.ping_timeout.as_nanos();
        match self.last_pong {
            Some(t) => (now.saturating_sub(t) as u128) < timeout,
            None => match self.last_ping {
                Some(t) => (now.saturating_sub(t) as u128) < timeout,
                None => true,
            },
        }
    }

    /// Check if connection is alive (pong received recently), now
    pub fn is_alive(&self) -> (r: bool)
        ensures
            exists|now: u64| r == #[trigger] self.alive_at(now),
    {
        let now = nanos_since(&self.epoch);
        self.is_alive_at(now)
    }

    /// Get number of pings sent
    pub fn ping_count(&self) -> (r: u64)
        ensures
            r == self.spec_ping_count(),
    {
        self.ping_count
    }

    /// Get number of pongs received
    pub fn pong_count(&self) -> (r: u64)
        ensures
            r == self.spec_pong_count(),
    {
        self.pong_count
    }

    /// Forget the last ping and pong and the missed pings (the counters stay)
    pub fn reset(&mut self)
        ensures
            final(self).spec_config() == old(self).spec_config(),
            final(self).spec_last_ping() is None,
            final(self).spec_last_pong() is None,
            final(self).spec_missed() == 0,
            final(self).spec_ping_count() == old(self).spec_ping_count(),
            final(self).spec_pong_count() == old(self).spec_pong_count(),
    {
        self.last_ping = None;
        self.last_pong = None;
        self.missed_pings = 0;
    }

    /// Answer a ping: a pong with the same payload
    pub fn handle_ping(&self, payload: &[u8]) -> (r: Message)
        ensures
            r.msg_type == MessageType::Pong,
            r.data() == payload@,
    {
        Message::pong(payload)
    }

    /// The time from the last pong to `now`, if a pong was received
    pub fn time_since_last_pong_at(&self, now: u64) -> (r: Option<Duration>)
        ensures
            match self.spec_last_pong() {
                Some(t) => r matches Some(d) && duration_nanos(d) == elapsed_since(t, now),
                None => r is None,
            },
    {
        match self.last_pong {
            Some(t) => Some(Duration::from_nanos(now.saturating_sub(t))),
            None => None,
        }
    }

    /// Get time since last pong, now
    pub fn time_since_last_pong(&self) -> (r: Option<Duration>)
        ensures
            self.spec_last_pong() is None <==> r is None,
    {
        let now = nanos_since(&self.epoch);
        self.time_since_last_pong_at(now)
    }

    /// Get missed ping count
    pub fn missed_pings(&self) -> (r: u8)
        ensures
            r == self.spec_missed(),
    {
        self.missed_pings
    }
}

/// The bytes of a number read back give the number.
proof fn lemma_be_roundtrip(n: u64)
    ensures
        be_value(be_bytes(n)) == n,
{
    let b = be_bytes(n);
    let (b0, b1, b2, b3, b4, b5, b6, b7) = (b[0], b[1], b[2], b[3], b[4], b[5], b[6], b[7]);
    assert(b0 == (n >> 56u64) as u8 && b1 == (n >> 48u64) as u8 && b2 == (n >> 40u64) as u8 && b3
        == (n >> 32u64) as u8 && b4 == (n >> 24u64) as u8 && b5 == (n >> 16u64) as u8 && b6 == (n
        >> 8u64) as u8 && b7 == n as u8);
    assert(((b0 as u64) << 56u64) | ((b1 as u64) << 48u64) | ((b2 as u64) << 40u64) | ((b3 as u64)
        << 32u64) | ((b4 as u64) << 24u64) | ((b5 as u64) << 16u64) | ((b6 as u64) << 8u64) | (
    b7 as u64) == n) by (bit_vector)
        requires
            b0 == (n >> 56u64) as u8,
            b1 == (n >> 48u64) as u8,
            b2 == (n >> 40u64) as u8,
            b3 == (n >> 32u64) as u8,
            b4 == (n >> 24u64) as u8,
            b5 == (n >> 16u64) as u8,
            b6 == (n >> 8u64) as u8,
            b7 == n as u8,
    ;
}

/// A pong that echoes a ping answers it: after the ping numbered `n` (which
/// makes `n + 1` pings sent), its payload echoed back matches.
pub proof fn law_pong_answers_last_ping(n: u64)
    requires
        n < u64::MAX,
    ensures
        pong_matches((n + 1) as u64, be_bytes(n)),
{
    lemma_be_roundtrip(n);
}

/// Distinct ping numbers have distinct payloads: a pong echoing an older
/// ping does not match the last one.
pub proof fn law_stale_pong_mismatch(n: u64, m: u64)
    requires
        n < u64::MAX,
        m != n,
    ensures
        !pong_matches((n + 1) as u64, be_bytes(m)),
{
    lemma_be_roundtrip(m);
}

/// Liveness expires with the ping timeout: with the heartbeat enabled, a
/// connection whose last pong came at `t` is alive at `now` exactly when
/// less than the ping timeout has passed since `t`; before any pong, the
/// same holds of the last ping; with neither, or with the heartbeat
/// disabled, it is alive.
pub proof fn law_alive_within_timeout(m: HeartbeatManager, now: u64)
    ensures
        !m.spec_config().enabled ==> m.alive_at(now),
        m.spec_config().enabled && m.spec_last_pong() is None && m.spec_last_ping() is None
            ==> m.alive_at(now),
        m.spec_config().enabled ==> (m.spec_last_pong() matches Some(t) ==> (now >= t ==> (m.alive_at(
            now,
        ) <==> now - t < duration_nanos(m.spec_config().ping_timeout)))),
        m.spec_config().enabled ==> (m.spec_last_pong() matches Some(t) ==> (now
            >= t + duration_nanos(m.spec_config().ping_timeout) ==> !m.alive_at(now))),
        m.spec_config().enabled && m.spec_last_pong() is None ==> (m.spec_last_ping() matches Some(
            t,
        ) ==> (now >= t ==> (m.alive_at(now) <==> now - t < duration_nanos(
            m.spec_config().ping_timeout,
        )))),
{
}

} // verus!

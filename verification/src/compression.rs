//! Per-message compression for WebSocket (RFC 7692)
//!
//! DEFLATE compression (zlib format, through flate2) for messages at least
//! as long as a threshold, the compression parameters offered in the
//! handshake, and the parameters read back from the server's response.
use vstd::prelude::*;
use bytes::Bytes;
use std::io::{Read, Write};
use crate::error::{Error, Result};
use crate::message::bytes_view;
use crate::text::{
    decimal, push_decimal, lowercase, contains_seq, occurs_at, is_ascii_digit, str_to_lowercase,
    str_contains, digit_char, ascii_lower, all_ascii,
};

verus! {

/// Default compression threshold (1KB)
/// Messages smaller than this won't be compressed due to overhead
pub const DEFAULT_COMPRESSION_THRESHOLD: usize = 1024;

/// Default compression level (0-9, default 6)
pub const DEFAULT_COMPRESSION_LEVEL: u8 = 6;

/// Maximum compression level
pub const MAX_COMPRESSION_LEVEL: u8 = 9;

/// Minimum compression level
pub const MIN_COMPRESSION_LEVEL: u8 = 0;

/// Compression configuration
#[derive(Debug, Clone)]
pub struct CompressionConfig {
    /// Enable compression
    pub enabled: bool,
    /// Compression level (0-9)
    pub level: u8,
    /// Minimum message size to compress
    pub threshold: usize,
    /// Server max window bits (8-15)
    pub server_max_window_bits: u8,
    /// Client max window bits (8-15)
    pub client_max_window_bits: u8,
    /// Server no context takeover
    pub server_no_context_takeover: bool,
    /// Client no context takeover
    pub client_no_context_takeover: bool,
}

/// The default configuration: enabled, level 6, threshold 1024, window bits
/// 15 both ways, context takeover allowed both ways.
pub open spec fn default_config() -> CompressionConfig {
    CompressionConfig {
        enabled: true,
        level: 6,
        threshold: 1024,
        server_max_window_bits: 15,
        client_max_window_bits: 15,
        server_no_context_takeover: false,
        client_no_context_takeover: false,
    }
}

/// The default configuration with compression disabled.
pub open spec fn disabled_config() -> CompressionConfig {
    CompressionConfig {
        enabled: false,
        level: 6,
        threshold: 1024,
        server_max_window_bits: 15,
        client_max_window_bits: 15,
        server_no_context_takeover: false,
        client_no_context_takeover: false,
    }
}

impl Default for CompressionConfig {
    fn default() -> (r: Self)
        ensures
            r == default_config(),
    {
        CompressionConfig {
            enabled: true,
            level: DEFAULT_COMPRESSION_LEVEL,
            threshold: DEFAULT_COMPRESSION_THRESHOLD,
            server_max_window_bits: 15,
            client_max_window_bits: 15,
            server_no_context_takeover: false,
            client_no_context_takeover: false,
        }
    }
}

impl CompressionConfig {
    /// Create a new compression config (the default one)
    pub fn new() -> (r: Self)
        ensures
            r == default_config(),
    {
        Self::default()
    }

    /// The default configuration with compression disabled
    pub fn disabled() -> (r: Self)
        ensures
            r == disabled_config(),
    {
        let mut c = Self::default();
        c.enabled = false;
        c
    }

    /// Set compression level (0-9)
    pub fn with_level(self, level: u8) -> (r: Self)
        requires
            level <= MAX_COMPRESSION_LEVEL,
        ensures
            r == (CompressionConfig { level, ..self }),
    {
        let mut c = self;
        c.level = level;
        c
    }

    /// Set compression threshold
    pub fn with_threshold(self, threshold: usize) -> (r: Self)
        ensures
            r == (CompressionConfig { threshold, ..self }),
    {
        let mut c = self;
        c.threshold = threshold;
        c
    }

    /// Set server max window bits (8-15)
    pub fn with_server_max_window_bits(self, bits: u8) -> (r: Self)
        requires
            8 <= bits <= 15,
        ensures
            r == (CompressionConfig { server_max_window_bits: bits, ..self }),
    {
        let mut c = self;
        c.server_max_window_bits = bits;
        c
    }

    /// Set client max window bits (8-15)
    pub fn with_client_max_window_bits(self, bits: u8) -> (r: Self)
        requires
            8 <= bits <= 15,
        ensures
            r == (CompressionConfig { client_max_window_bits: bits, ..self }),
    {
        let mut c = self;
        c.client_max_window_bits = bits;
        c
    }

    /// Set server no context takeover
    pub fn with_server_no_context_takeover(self, enabled: bool) -> (r: Self)
        ensures
            r == (CompressionConfig { server_no_context_takeover: enabled, ..self }),
    {
        let mut c = self;
        c.server_no_context_takeover = enabled;
        c
    }

    /// Set client no context takeover
    pub fn with_client_no_context_takeover(self, enabled: bool) -> (r: Self)
        ensures
            r == (CompressionConfig { client_no_context_takeover: enabled, ..self }),
    {
        let mut c = self;
        c.client_no_context_takeover = enabled;
        c
    }
}

/// What flate2's zlib encoder writes for `data` at compression `level`.
pub uninterp spec fn zlib_deflate(level: u8, data: Seq<u8>) -> Seq<u8>;

/// What flate2's zlib decoder reads back from `data`: the decoded bytes, or
/// none when `data` is not a zlib stream.
pub uninterp spec fn zlib_inflate(data: Seq<u8>) -> Option<Seq<u8>>;

/// flate2's `write::ZlibEncoder` at `Compression::new(level)`, fed `data`
/// with `write_all` and closed with `finish`, into a byte vector: the bytes
/// `zlib_deflate(level, data)`. It succeeds: writing into a vector does not
/// fail, and the encoder reports an error only when its own compressor
/// fails, which it does not at a level from 0 to 10. flate2's default
/// backend asserts (in debug builds) that the level is at most 10, which
/// `requires` keeps.
#[verifier::external_body]
fn zlib_compress(level: u8, data: &[u8]) -> (r: core::result::Result<Vec<u8>, std::io::Error>)
    requires
        level <= 10,
    ensures
        r is Ok,
        r matches Ok(v) ==> v@ == zlib_deflate(level, data@),
{
    let mut encoder = flate2::write::ZlibEncoder::new(
        Vec::new(),
        flate2::Compression::new(u32::from(level)),
    );
    encoder.write_all(data)?;
    encoder.finish()
}

/// flate2's `read::ZlibDecoder` over `data`, read to the end: succeeds
/// exactly when `data` is a zlib stream, with the decoded bytes; a stream
/// that the encoder wrote at a level from 0 to 9 decodes to what it was fed.
#[verifier::external_body]
fn zlib_decompress(data: &[u8]) -> (r: core::result::Result<Vec<u8>, std::io::Error>)
    ensures
        r matches Ok(v) ==> zlib_inflate(data@) == Some(v@),
        r is Err ==> zlib_inflate(data@) is None,
        match r {
            Ok(v) => forall|level: u8, d: Seq<u8>|
                level <= 9 && data@ == #[trigger] zlib_deflate(level, d) ==> v@ == d,
            Err(_) => forall|level: u8, d: Seq<u8>|
                !(level <= 9 && data@ == #[trigger] zlib_deflate(level, d)),
        },
{
    let mut out = Vec::new();
    flate2::read::ZlibDecoder::new(data).read_to_end(&mut out)?;
    Ok(out)
}

/// A counter after `n` more bytes, wrapping around at 2^64.
pub open spec fn wrapped_count(c: u64, n: nat) -> u64 {
    ((c + n) % 0x1_0000_0000_0000_0000) as u64
}

/// Adds `n` to a byte counter, wrapping around at 2^64.
fn add_wrapping(c: u64, n: usize) -> (r: u64)
    ensures
        r == wrapped_count(c, n as nat),
{
    let r = c.wrapping_add(n as u64);
    proof {
        assert(n as u64 == n);
    }
    r
}

/// The error message of a failed compression or decompression: the prefix
/// followed by what std gives for the I/O error.
fn failure_message(prefix: &str, e: &std::io::Error) -> (r: String)
    ensures
        r@.len() >= prefix@.len(),
        r@.subrange(0, prefix@.len() as int) == prefix@,
{
    let mut s = String::from_str(prefix);
    let detail = e.to_string();
    s.append(detail.as_str());
    assert(s@.subrange(0, prefix@.len() as int) =~= prefix@);
    s
}

/// Whether an error is an invalid-frame error whose message starts with `prefix`.
pub open spec fn invalid_frame_with_prefix(e: Error, prefix: Seq<char>) -> bool {
    e matches Error::InvalidFrame(m) && m@.len() >= prefix.len() && m@.subrange(0, prefix.len() as int)
        == prefix
}

/// What a compressor sends for `d`: the data itself when it is shorter than
/// the threshold or when DEFLATE does not make it shorter, the DEFLATE
/// output otherwise.
pub open spec fn compressed_payload(level: u8, threshold: nat, d: Seq<u8>) -> Seq<u8> {
    if d.len() < threshold || zlib_deflate(level, d).len() >= d.len() {
        d
    } else {
        zlib_deflate(level, d)
    }
}

/// Per-message compressor, counting the bytes it compressed and produced.
pub struct Compressor {
    /// Compression configuration
    config: CompressionConfig,
    /// Bytes fed to the encoder
    total_in: u64,
    /// Bytes the encoder produced
    total_out: u64,
}

impl Compressor {
    /// The compression configuration.
    pub closed spec fn spec_config(&self) -> CompressionConfig {
        self.config
    }

    /// Bytes fed to the encoder so far.
    pub closed spec fn spec_total_in(&self) -> u64 {
        self.total_in
    }

    /// Bytes the encoder produced so far.
    pub closed spec fn spec_total_out(&self) -> u64 {
        self.total_out
    }

    /// Create a new compressor with the given configuration; fails when the
    /// configuration disables compression.
    pub fn new(config: CompressionConfig) -> (r: Result<Self>)
        ensures
            config.enabled ==> (r matches Ok(c) && c.spec_config() == config && c.spec_total_in() == 0
                && c.spec_total_out() == 0),
            !config.enabled ==> (r matches Err(Error::NotSupported(m)) && m@
                == "Compression is disabled"@),
    {
        if !config.enabled {
            return Err(Error::not_supported("Compression is disabled"));
        }
        Ok(Compressor { config, total_in: 0, total_out: 0 })
    }

    /// Create a new compressor with the default configuration at `level` (0-9)
    pub fn with_level(level: u8) -> (r: Result<Self>)
        requires
            level <= MAX_COMPRESSION_LEVEL,
        ensures
            r matches Ok(c) && c.spec_config() == (CompressionConfig { level, ..default_config() })
                && c.spec_total_in() == 0 && c.spec_total_out() == 0,
    {
        let config = CompressionConfig::new().with_level(level);
        Self::new(config)
    }

    /// What follows the encoder's work on `data` (whose result is
    /// `deflated`): a failure becomes an invalid-frame error "Compression
    /// failed: ..." and leaves the counters alone; otherwise the counters
    /// grow by the input and output lengths, and the result is the encoder's
    /// output when it is shorter than `data`, `data` itself otherwise.
    pub fn finish_compression(
        &mut self,
        data: &[u8],
        deflated: core::result::Result<Vec<u8>, std::io::Error>,
    ) -> (r: Result<Bytes>)
        requires
            old(self).spec_total_in() + data@.len() <= u64::MAX,
        ensures
            final(self).spec_config() == old(self).spec_config(),
            match deflated {
                Ok(v) => {
                    &&& r matches Ok(b) && bytes_view(b) == (if v@.len() >= data@.len() {
                        data@
                    } else {
                        v@
                    })
                    &&& final(self).spec_total_in() == old(self).spec_total_in() + data@.len()
                    &&& final(self).spec_total_out() == wrapped_count(
                        old(self).spec_total_out(),
                        v@.len(),
                    )
                },
                Err(_) => {
                    &&& r matches Err(e) && invalid_frame_with_prefix(e, "Compression failed: "@)
                    &&& final(self).spec_total_in() == old(self).spec_total_in()
                    &&& final(self).spec_total_out() == old(self).spec_total_out()
                },
            },
    {
        match deflated {
            Ok(compressed) => {
                self.total_in = self.total_in + data.len() as u64;
                self.total_out = add_wrapping(self.total_out, compressed.len());
                if compressed.len() >= data.len() {
                    Ok(Bytes::copy_from_slice(data))
                } else {
                    Ok(Bytes::from(compressed))
                }
            },
            Err(e) => Err(Error::InvalidFrame(failure_message("Compression failed: ", &e))),
        }
    }

    /// Compress data: data shorter than the threshold is returned as it is,
    /// with the counters unchanged; otherwise it goes through the zlib
    /// encoder at the configured level, which succeeds: the result is the
    /// encoder's output when it is shorter than the data, the data itself
    /// otherwise, and the counters grow by the input and output lengths. The
    /// configured level must be at most 10, the highest that flate2 accepts.
    pub fn compress(&mut self, data: &[u8]) -> (r: Result<Bytes>)
        requires
            old(self).spec_total_in() + data@.len() <= u64::MAX,
            old(self).spec_config().level <= 10,
        ensures
            final(self).spec_config() == old(self).spec_config(),
            data@.len() < old(self).spec_config().threshold ==> {
                &&& r matches Ok(b) && bytes_view(b) == data@
                &&& final(self).spec_total_in() == old(self).spec_total_in()
                &&& final(self).spec_total_out() == old(self).spec_total_out()
            },
            data@.len() >= old(self).spec_config().threshold ==> {
                &&& r matches Ok(b) && bytes_view(b) == compressed_payload(
                    old(self).spec_config().level,
                    old(self).spec_config().threshold as nat,
                    data@,
                )
                &&& final(self).spec_total_in() == old(self).spec_total_in() + data@.len()
                &&& final(self).spec_total_out() == wrapped_count(
                    old(self).spec_total_out(),
                    zlib_deflate(old(self).spec_config().level, data@).len(),
                )
            },
    {
        if data.len() < self.config.threshold {
            return Ok(Bytes::copy_from_slice(data));
        }
        let deflated = zlib_compress(self.config.level, data);
        self.finish_compression(data, deflated)
    }

    /// The compression configuration
    pub fn config(&self) -> (r: &CompressionConfig)
        ensures
            *r == self.spec_config(),
    {
        &self.config
    }

    /// Reset the counters
    pub fn reset(&mut self)
        ensures
            final(self).spec_config() == old(self).spec_config(),
            final(self).spec_total_in() == 0,
            final(self).spec_total_out() == 0,
    {
        self.total_in = 0;
        self.total_out = 0;
    }

    /// Get total bytes input
    pub fn total_input(&self) -> (r: u64)
        ensures
            r == self.spec_total_in(),
    {
        self.total_in
    }

    /// Get total bytes output
    pub fn total_output(&self) -> (r: u64)
        ensures
            r == self.spec_total_out(),
    {
        self.total_out
    }
}

/// Per-message decompressor, counting the bytes it decompressed and produced.
pub struct Decompressor {
    /// Bytes fed to the decoder
    total_in: u64,
    /// Bytes the decoder produced
    total_out: u64,
}

impl Decompressor {
    /// Bytes fed to the decoder so far.
    pub closed spec fn spec_total_in(&self) -> u64 {
        self.total_in
    }

    /// Bytes the decoder produced so far.
    pub closed spec fn spec_total_out(&self) -> u64 {
        self.total_out
    }

    /// Create a new decompressor
    pub fn new() -> (r: Self)
        ensures
            r.spec_total_in() == 0,
            r.spec_total_out() == 0,
    {
        Decompressor { total_in: 0, total_out: 0 }
    }

    /// What follows the decoder's work on `input_len` bytes (whose result
    /// is `inflated`): a failure becomes an invalid-frame error
    /// "Decompression failed: ..." and leaves the counters alone; otherwise
    /// the counters grow by the input and output lengths and the decoded
    /// bytes are returned.
    pub fn finish_decompression(
        &mut self,
        input_len: usize,
        inflated: core::result::Result<Vec<u8>, std::io::Error>,
    ) -> (r: Result<Bytes>)
        requires
            old(self).spec_total_in() + input_len <= u64::MAX,
        ensures
            match inflated {
                Ok(v) => {
                    &&& r matches Ok(b) && bytes_view(b) == v@
                    &&& final(self).spec_total_in() == old(self).spec_total_in() + input_len
                    &&& final(self).spec_total_out() == wrapped_count(
                        old(self).spec_total_out(),
                        v@.len(),
                    )
                },
                Err(_) => {
                    &&& r matches Err(e) && invalid_frame_with_prefix(e, "Decompression failed: "@)
                    &&& final(self).spec_total_in() == old(self).spec_total_in()
                    &&& final(self).spec_total_out() == old(self).spec_total_out()
                },
            },
    {
        match inflated {
            Ok(decompressed) => {
                self.total_in = self.total_in + input_len as u64;
                self.total_out = add_wrapping(self.total_out, decompressed.len());
                Ok(Bytes::from(decompressed))
            },
            Err(e) => Err(Error::InvalidFrame(failure_message("Decompression failed: ", &e))),
        }
    }

    /// Decompress data: the decoded bytes when `data` is a zlib stream (in
    /// particular, what the compressor's encoder was fed, for any level from
    /// 0 to 9), an invalid-frame error "Decompression failed: ..." otherwise.
    pub fn decompress(&mut self, data: &[u8]) -> (r: Result<Bytes>)
        requires
            old(self).spec_total_in() + data@.len() <= u64::MAX,
        ensures
            match zlib_inflate(data@) {
                Some(d) => {
                    &&& r matches Ok(b) && bytes_view(b) == d
                    &&& final(self).spec_total_in() == old(self).spec_total_in() + data@.len()
                    &&& final(self).spec_total_out() == wrapped_count(
                        old(self).spec_total_out(),
                        d.len(),
                    )
                },
                None => {
                    &&& r matches Err(e) && invalid_frame_with_prefix(e, "Decompression failed: "@)
                    &&& final(self).spec_total_in() == old(self).spec_total_in()
                    &&& final(self).spec_total_out() == old(self).spec_total_out()
                },
            },
            forall|level: u8, d: Seq<u8>|
                level <= 9 && data@ == #[trigger] zlib_deflate(level, d) ==> (r matches Ok(b)
                    && bytes_view(b) == d),
    {
        let inflated = zlib_decompress(data);
        self.finish_decompression(data.len(), inflated)
    }

    /// Reset the counters
    pub fn reset(&mut self)
        ensures
            final(self).spec_total_in() == 0,
            final(self).spec_total_out() == 0,
    {
        self.total_in = 0;
        self.total_out = 0;
    }

    /// Get total bytes input
    pub fn total_input(&self) -> (r: u64)
        ensures
            r == self.spec_total_in(),
    {
        self.total_in
    }

    /// Get total bytes output
    pub fn total_output(&self) -> (r: u64)
        ensures
            r == self.spec_total_out(),
    {
        self.total_out
    }
}

impl Default for Decompressor {
    fn default() -> (r: Self)
        ensures
            r.spec_total_in() == 0,
            r.spec_total_out() == 0,
    {
        Self::new()
    }
}

/// Whether a message should be compressed (and the RSV1 bit set):
/// compression is enabled and the data is at least as long as the threshold.
pub fn should_compress(config: &CompressionConfig, data: &[u8]) -> (r: bool)
    ensures
        r == (config.enabled && data@.len() >= config.threshold),
{
    config.enabled && data.len() >= config.threshold
}

/// The compression offer of the handshake for a configuration.
pub open spec fn offer_text(c: CompressionConfig) -> Seq<char> {
    "permessage-deflate; server_max_window_bits="@ + decimal(c.server_max_window_bits as nat)
        + "; client_max_window_bits="@ + decimal(c.client_max_window_bits as nat) + (
    if c.server_no_context_takeover {
        "; server_no_context_takeover"@
    } else {
        Seq::<char>::empty()
    }) + (if c.client_no_context_takeover {
        "; client_no_context_takeover"@
    } else {
        Seq::<char>::empty()
    })
}

/// Generate the per-message compression offer for the WebSocket handshake
pub fn compression_offer(config: &CompressionConfig) -> (r: String)
    ensures
        r@ == offer_text(*config),
{
    let mut s = String::from_str("permessage-deflate; server_max_window_bits=");
    push_decimal(&mut s, config.server_max_window_bits as u128);
    s.append("; client_max_window_bits=");
    push_decimal(&mut s, config.client_max_window_bits as u128);
    if config.server_no_context_takeover {
        s.append("; server_no_context_takeover");
    }
    if config.client_no_context_takeover {
        s.append("; client_no_context_takeover");
    }
    s
}

/// Where the run of ASCII digits starting at `i` ends.
pub open spec fn digit_run_end(h: Seq<char>, i: int) -> int
    decreases h.len() - i,
{
    if 0 <= i < h.len() && is_ascii_digit(h[i]) {
        digit_run_end(h, i + 1)
    } else {
        i
    }
}

/// `key` occurs at position `i` of `h` and is directly followed by a digit.
pub open spec fn key_digit_at(h: Seq<char>, key: Seq<char>, i: int) -> bool {
    occurs_at(h, key, i) && i + key.len() < h.len() && is_ascii_digit(h[i + key.len()])
}

/// The digits after the leftmost occurrence of `key` that a digit follows,
/// if there is one (the group of the regex `key(\d+)`, `\d` being an ASCII
/// digit, matched leftmost-first and greedily).
#[verifier::opaque]
pub open spec fn digits_after(h: Seq<char>, key: Seq<char>) -> Option<Seq<char>> {
    if exists|i: int| key_digit_at(h, key, i) {
        let i = choose|i: int|
            key_digit_at(h, key, i) && forall|j: int| j < i ==> !#[trigger] key_digit_at(h, key, j);
        Some(h.subrange(i + key.len(), digit_run_end(h, i + key.len())))
    } else {
        None
    }
}

/// Whether a character is an ASCII letter or `_`: such names need no escape in a regex.
pub open spec fn is_plain_name_char(c: char) -> bool {
    ('a' <= c && c <= 'z') || ('A' <= c && c <= 'Z') || c == '_'
}

/// regex-lite's `Regex::new` on the pattern `name=(\d+)`, `captures` on
/// `haystack` and the text of group 1: the digits after the leftmost
/// occurrence of `name=` followed by a digit (regex-lite's `\d` is an ASCII
/// digit; `+` is greedy).
#[verifier::external_body]
fn regex_digits_after(name: &str, haystack: &str) -> (r: Option<String>)
    requires
        name@.len() > 0,
        forall|i: int| 0 <= i < name@.len() ==> is_plain_name_char(#[trigger] name@[i]),
    ensures
        match r {
            Some(s) => digits_after(haystack@, name@ + "="@) == Some(s@),
            None => digits_after(haystack@, name@ + "="@) is None,
        },
{
    let re = regex_lite::Regex::new(&format!("{}=(\\d+)", name)).ok()?;
    let caps = re.captures(haystack)?;
    caps.get(1).map(|m| m.as_str().to_string())
}

/// The value of a string of decimal digits.
pub open spec fn decimal_value(s: Seq<char>) -> nat
    decreases s.len(),
{
    if s.len() == 0 {
        0
    } else {
        decimal_value(s.drop_last()) * 10 + ((s.last() as u32) - 48) as nat
    }
}

/// Whether every character is an ASCII digit.
pub open spec fn all_digits(s: Seq<char>) -> bool {
    forall|i: int| 0 <= i < s.len() ==> is_ascii_digit(#[trigger] s[i])
}

/// `str::parse::<u8>` on a non-empty string of ASCII digits: the value when
/// it is at most 255.
fn parse_u8_digits(s: &str) -> (r: Option<u8>)
    requires
        all_digits(s@),
    ensures
        decimal_value(s@) <= 255 ==> r == Some(decimal_value(s@) as u8),
        decimal_value(s@) > 255 ==> r is None,
{
    let n = s.unicode_len();
    let mut v: u32 = 0;
    let mut i: usize = 0;
    while i < n
        invariant
            n == s@.len(),
            i <= n,
            all_digits(s@),
            v == decimal_value(s@.subrange(0, i as int)),
            v <= 255,
        decreases n - i,
    {
        let c = s.get_char(i);
        let d = (c as u32) - 48;
        assert(s@.subrange(0, i + 1).drop_last() =~= s@.subrange(0, i as int));
        assert(is_ascii_digit(s@[i as int]));
        let nv = v * 10 + d;
        if nv > 255 {
            proof {
                lemma_decimal_prefix_grows(s@, i + 1);
            }
            return None;
        }
        v = nv;
        i = i + 1;
    }
    assert(s@.subrange(0, i as int) =~= s@);
    Some(v as u8)
}

/// The value of a digit string is at least that of any of its prefixes.
proof fn lemma_decimal_prefix_grows(s: Seq<char>, i: int)
    requires
        all_digits(s),
        0 <= i <= s.len(),
    ensures
        decimal_value(s.subrange(0, i)) <= decimal_value(s),
    decreases s.len() - i,
{
    if i < s.len() {
        lemma_decimal_prefix_grows(s, i + 1);
        assert(s.subrange(0, i + 1).drop_last() =~= s.subrange(0, i));
        assert(is_ascii_digit(s[i]));
    } else {
        assert(s.subrange(0, i) =~= s);
    }
}

/// The window bits a response gives for `name`: the number after the
/// leftmost `name=` followed by digits, when it is from 8 to 15; 15 otherwise.
pub open spec fn negotiated_bits(h: Seq<char>, name: Seq<char>) -> u8 {
    match digits_after(h, name + "="@) {
        Some(d) => if 8 <= decimal_value(d) <= 15 {
            decimal_value(d) as u8
        } else {
            15
        },
        None => 15,
    }
}

/// The configuration read from a server's compression response: disabled
/// unless the (lowercased) response names permessage-deflate; otherwise
/// the default configuration with the window bits and the no-context-takeover
/// flags that the response gives.
pub open spec fn response_config(header: Seq<char>) -> CompressionConfig {
    let h = lowercase(header);
    if !contains_seq(h, "permessage-deflate"@) {
        disabled_config()
    } else {
        CompressionConfig {
            enabled: true,
            level: 6,
            threshold: 1024,
            server_max_window_bits: negotiated_bits(h, "server_max_window_bits"@),
            client_max_window_bits: negotiated_bits(h, "client_max_window_bits"@),
            server_no_context_takeover: contains_seq(h, "server_no_context_takeover"@),
            client_no_context_takeover: contains_seq(h, "client_no_context_takeover"@),
        }
    }
}

/// Every digit capture is a non-empty run of digits.
proof fn lemma_digits_after(h: Seq<char>, key: Seq<char>)
    ensures
        digits_after(h, key) matches Some(d) ==> all_digits(d) && d.len() > 0,
{
    reveal(digits_after);
    if exists|i: int| key_digit_at(h, key, i) {
        lemma_least_key_digit(h, key);
        let i = choose|i: int|
            key_digit_at(h, key, i) && forall|j: int| j < i ==> !#[trigger] key_digit_at(h, key, j);
        assert(key_digit_at(h, key, i));
        lemma_digit_run(h, i + key.len());
    }
}

proof fn lemma_digit_run(h: Seq<char>, i: int)
    requires
        0 <= i <= h.len(),
    ensures
        i <= digit_run_end(h, i) <= h.len(),
        all_digits(h.subrange(i, digit_run_end(h, i))),
        i < h.len() && is_ascii_digit(h[i]) ==> digit_run_end(h, i) > i,
    decreases h.len() - i,
{
    if i < h.len() && is_ascii_digit(h[i]) {
        lemma_digit_run(h, i + 1);
        let e = digit_run_end(h, i);
        assert forall|k: int| 0 <= k < e - i implies is_ascii_digit(
            #[trigger] h.subrange(i, e)[k],
        ) by {
            if k > 0 {
                assert(h.subrange(i, e)[k] == h.subrange(i + 1, e)[k - 1]);
            }
        }
    }
}

/// When `key` followed by a digit occurs, a leftmost such occurrence exists.
proof fn lemma_least_key_digit(h: Seq<char>, key: Seq<char>)
    requires
        exists|i: int| key_digit_at(h, key, i),
    ensures
        exists|i: int|
            key_digit_at(h, key, i) && forall|j: int| j < i ==> !#[trigger] key_digit_at(h, key, j),
{
    let i0 = choose|i: int| key_digit_at(h, key, i);
    lemma_least_below(h, key, i0);
}

proof fn lemma_least_below(h: Seq<char>, key: Seq<char>, n: int)
    requires
        key_digit_at(h, key, n),
    ensures
        exists|i: int|
            key_digit_at(h, key, i) && forall|j: int| j < i ==> !#[trigger] key_digit_at(h, key, j),
    decreases n,
{
    if exists|j: int| j < n && key_digit_at(h, key, j) {
        let j = choose|j: int| j < n && key_digit_at(h, key, j);
        assert(j >= 0);
        lemma_least_below(h, key, j);
    }
}

/// Parse the per-message compression response of the WebSocket handshake
/// (never fails).
pub fn parse_compression_response(header: &str) -> (r: Result<CompressionConfig>)
    ensures
        r matches Ok(c) && c == response_config(header@),
{
    let header = str_to_lowercase(header);
    if !str_contains(header.as_str(), "permessage-deflate") {
        return Ok(CompressionConfig::disabled());
    }
    let mut config = CompressionConfig::default();
    proof {
        reveal_strlit("server_max_window_bits");
        reveal_strlit("client_max_window_bits");
    }
    if let Some(bits) = regex_digits_after("server_max_window_bits", header.as_str()) {
        proof {
            lemma_digits_after(header@, "server_max_window_bits"@ + "="@);
        }
        if let Some(value) = parse_u8_digits(bits.as_str()) {
            if 8 <= value && value <= 15 {
                config.server_max_window_bits = value;
            }
        }
    }
    if let Some(bits) = regex_digits_after("client_max_window_bits", header.as_str()) {
        proof {
            lemma_digits_after(header@, "client_max_window_bits"@ + "="@);
        }
        if let Some(value) = parse_u8_digits(bits.as_str()) {
            if 8 <= value && value <= 15 {
                config.client_max_window_bits = value;
            }
        }
    }
    config.server_no_context_takeover = str_contains(header.as_str(), "server_no_context_takeover");
    config.client_no_context_takeover = str_contains(header.as_str(), "client_no_context_takeover");
    Ok(config)
}

/// The decimal of window bits (8 to 15): one or two ASCII digits, whose
/// value is the bits.
proof fn lemma_bits_decimal(b: u8)
    requires
        8 <= b <= 15,
    ensures
        1 <= decimal(b as nat).len() <= 2,
        all_digits(decimal(b as nat)),
        decimal_value(decimal(b as nat)) == b,
        forall|i: int| 0 <= i < decimal(b as nat).len() ==> ascii_lower(#[trigger] decimal(b as nat)[i]) == decimal(b as nat)[i] && decimal(b as nat)[i] <= '\u{7f}',
{
    let d = decimal(b as nat);
    if b < 10 {
        assert(d == seq![digit_char(b as nat)]);
        assert(d.drop_last() =~= Seq::<char>::empty());
        assert(digit_char(b as nat) as u32 == 48 + b);
        assert(decimal_value(d) == decimal_value(d.drop_last()) * 10 + ((d.last() as u32) - 48) as nat);
    } else {
        let u = (b % 10) as nat;
        assert(decimal((b / 10) as nat) == seq![digit_char(1)]);
        assert(d == seq![digit_char(1), digit_char(u)]);
        assert(d.drop_last() =~= seq![digit_char(1)]);
        assert(d.drop_last().drop_last() =~= Seq::<char>::empty());
        assert(digit_char(1) as u32 == 49);
        assert(digit_char(u) as u32 == 48 + u);
        assert(decimal_value(d.drop_last()) == decimal_value(d.drop_last().drop_last()) * 10 + ((d.drop_last().last() as u32) - 48) as nat);
        assert(decimal_value(d) == decimal_value(d.drop_last()) * 10 + ((d.last() as u32) - 48) as nat);
    }
}

/// When `key` followed by a digit first occurs at `i`, the digits after it
/// are the run of digits there.
proof fn lemma_digits_after_at(h: Seq<char>, key: Seq<char>, i: int)
    requires
        key_digit_at(h, key, i),
        forall|j: int| j < i ==> !#[trigger] key_digit_at(h, key, j),
    ensures
        digits_after(h, key) == Some(h.subrange(i + key.len(), digit_run_end(h, i + key.len()))),
{
    reveal(digits_after);
    let c = choose|c: int|
        key_digit_at(h, key, c) && forall|j: int| j < c ==> !#[trigger] key_digit_at(h, key, j);
    assert(key_digit_at(h, key, c) && forall|j: int| j < c ==> !#[trigger] key_digit_at(h, key, j));
    if c < i {
        assert(!key_digit_at(h, key, c));
    }
    if c > i {
        assert(!key_digit_at(h, key, i));
    }
}

/// The offer that `compression_offer` writes for a configuration (whose
/// window bits are from 8 to 15, as the builders make them) reads back,
/// through `parse_compression_response`, as that configuration's
/// negotiated parameters: compression enabled, the same window bits and
/// the same no-context-takeover flags.
#[verifier::rlimit(60)]
#[verifier::spinoff_prover]
pub proof fn law_offer_roundtrip(c: CompressionConfig)
    requires
        8 <= c.server_max_window_bits <= 15,
        8 <= c.client_max_window_bits <= 15,
    ensures
        response_config(offer_text(c)).enabled,
        response_config(offer_text(c)).server_max_window_bits == c.server_max_window_bits,
        response_config(offer_text(c)).client_max_window_bits == c.client_max_window_bits,
        response_config(offer_text(c)).server_no_context_takeover == c.server_no_context_takeover,
        response_config(offer_text(c)).client_no_context_takeover == c.client_no_context_takeover,
{
    reveal_strlit("permessage-deflate; server_max_window_bits=");
    reveal_strlit("; client_max_window_bits=");
    reveal_strlit("; server_no_context_takeover");
    reveal_strlit("; client_no_context_takeover");
    reveal_strlit("permessage-deflate");
    reveal_strlit("server_max_window_bits");
    reveal_strlit("client_max_window_bits");
    reveal_strlit("=");
    reveal_strlit("server_no_context_takeover");
    reveal_strlit("client_no_context_takeover");
    let a = "permessage-deflate; server_max_window_bits="@;
    let b = "; client_max_window_bits="@;
    let f1 = if c.server_no_context_takeover {
        "; server_no_context_takeover"@
    } else {
        Seq::<char>::empty()
    };
    let f2 = if c.client_no_context_takeover {
        "; client_no_context_takeover"@
    } else {
        Seq::<char>::empty()
    };
    let d1 = decimal(c.server_max_window_bits as nat);
    let d2 = decimal(c.client_max_window_bits as nat);
    lemma_bits_decimal(c.server_max_window_bits);
    lemma_bits_decimal(c.client_max_window_bits);
    let h = offer_text(c);
    assert(h == a + d1 + b + d2 + f1 + f2);
    let q1: int = 43 + d1.len() as int;
    let q2: int = q1 + 25;
    let e: int = q2 + d2.len() as int;
    let g: int = e + f1.len() as int;
    assert(h.len() == g + f2.len());
    assert(forall|i: int| 0 <= i < 43 ==> #[trigger] h[i] == a[i]);
    assert(forall|i: int| 43 <= i < q1 ==> #[trigger] h[i] == d1[i - 43]);
    assert(forall|i: int| q1 <= i < q2 ==> #[trigger] h[i] == b[i - q1]);
    assert(forall|i: int| q2 <= i < e ==> #[trigger] h[i] == d2[i - q2]);
    assert(forall|i: int| e <= i < g ==> #[trigger] h[i] == f1[i - e]);
    assert(forall|i: int| g <= i < h.len() ==> #[trigger] h[i] == f2[i - g]);
    // The offer is already lowercase ASCII.
    assert forall|i: int| 0 <= i < h.len() implies ascii_lower(#[trigger] h[i]) == h[i] && h[i]
        <= '\u{7f}' by {
        if i < 43 {
        } else if i < q1 {
            assert(h[i] == d1[i - 43]);
        } else if i < q2 {
        } else if i < e {
            assert(h[i] == d2[i - q2]);
        } else if i < g {
        } else {
        }
    }
    assert(lowercase(h) =~= h);
    // It names permessage-deflate.
    assert(occurs_at(h, "permessage-deflate"@, 0)) by {
        assert(h.subrange(0, 18) =~= "permessage-deflate"@);
    }
    // The server's window bits: the first `server_max_window_bits=` is
    // followed by the digits of the bits, then by `;`.
    let key1 = "server_max_window_bits"@ + "="@;
    assert(h.subrange(20, 43) =~= key1);
    assert(is_ascii_digit(h[43]));
    assert(key_digit_at(h, key1, 20));
    assert forall|j: int| j < 20 implies !#[trigger] key_digit_at(h, key1, j) by {
        if key_digit_at(h, key1, j) {
            assert(h.subrange(j, j + 23) == key1);
            assert(h[j] == key1[0] && h[j + 1] == key1[1]);
        }
    }
    assert(!is_ascii_digit(h[q1]));
    assert(digit_run_end(h, q1) == q1);
    if d1.len() == 2 {
        assert(is_ascii_digit(h[44]));
        assert(digit_run_end(h, 44) == q1);
    }
    assert(digit_run_end(h, 44) == q1);
    assert(digit_run_end(h, 43) == q1);
    lemma_digits_after_at(h, key1, 20);
    assert(h.subrange(43, q1) =~= d1);
    // The client's window bits: the first `client_max_window_bits=` is the
    // one after the server's bits (no `c` comes before it).
    let key2 = "client_max_window_bits"@ + "="@;
    let p2: int = q1 + 2;
    assert(h.subrange(p2, q2) =~= key2);
    assert(is_ascii_digit(h[q2]));
    assert(key_digit_at(h, key2, p2));
    assert forall|j: int| j < p2 implies !#[trigger] key_digit_at(h, key2, j) by {
        if key_digit_at(h, key2, j) {
            assert(h.subrange(j, j + 23) == key2);
            assert(h[j] == key2[0]);
            if 43 <= j < q1 {
                assert(h[j] == d1[j - 43]);
            }
        }
    }
    assert(e == h.len() || !is_ascii_digit(h[e]));
    assert(digit_run_end(h, e) == e);
    if d2.len() == 2 {
        assert(is_ascii_digit(h[q2 + 1]));
        assert(digit_run_end(h, q2 + 1) == e);
    }
    assert(digit_run_end(h, q2 + 1) == e);
    assert(digit_run_end(h, q2) == e);
    lemma_digits_after_at(h, key2, p2);
    assert(h.subrange(q2, e) =~= d2);
    // The no-context-takeover flags: each name occurs exactly when its
    // flag is set; nothing else in the offer spells it.
    let n1 = "server_no_context_takeover"@;
    let n2 = "client_no_context_takeover"@;
    if c.server_no_context_takeover {
        assert(h.subrange(e + 2, g) =~= n1);
        assert(occurs_at(h, n1, e + 2));
    } else {
        assert forall|j: int| !#[trigger] occurs_at(h, n1, j) by {
            if occurs_at(h, n1, j) {
                assert(h.subrange(j, j + 26) == n1);
                assert(h[j] == n1[0] && h[j + 1] == n1[1] && h[j + 7] == n1[7]);
                if 43 <= j < q1 {
                    assert(h[j] == d1[j - 43]);
                } else if q2 <= j < e {
                    assert(h[j] == d2[j - q2]);
                }
            }
        }
    }
    if c.client_no_context_takeover {
        assert(h.subrange(g, h.len() as int).subrange(2, 28) =~= n2);
        assert(h.subrange(g + 2, g + 28) =~= n2);
        assert(occurs_at(h, n2, g + 2));
    } else {
        assert forall|j: int| !#[trigger] occurs_at(h, n2, j) by {
            if occurs_at(h, n2, j) {
                assert(h.subrange(j, j + 26) == n2);
                assert(h[j] == n2[0] && h[j + 1] == n2[1] && h[j + 7] == n2[7]);
                if 43 <= j < q1 {
                    assert(h[j] == d1[j - 43]);
                } else if q2 <= j < e {
                    assert(h[j] == d2[j - q2]);
                }
            }
        }
    }
}

} // verus!

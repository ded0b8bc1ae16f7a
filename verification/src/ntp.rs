//! The computing parts of an NTP exchange: checking a server's answer,
//! converting between Unix time and 64-bit NTP timestamps, and how many of
//! the slowest samples are dropped.  Sending, receiving and averaging are
//! done outside the library.
use crate::byte_order::{
    from_ordered_bytes, lemma_ordered_bytes_of_value, lemma_ordered_roundtrip, lemma_pow256_values,
    ordered_bytes, ordered_value, to_ordered_bytes,
};
use crate::env_value::{spec_trim, trim};
use vstd::prelude::*;
use vstd::string::{StrSliceExecFns, StringExecFns};

verus! {

/// Seconds from 1900-01-01 (the NTP era) to 1970-01-01 (the Unix epoch).
pub const EPOCH_DELTA: u64 = 0x83AA7E80;

/// The mode of an answer sent by a server.
pub const MODE_SERVER: u8 = 4;

/// Why an NTP exchange failed.
#[derive(Debug, Clone, Copy)]
pub enum NtpError {
    /// The answer breaks the protocol.
    Protocol(&'static str),
    /// The network failed.
    Io,
    /// No answer came in time.
    Timeout,
    /// A time could not be converted.
    TimeParse,
}

/// The message of an error.
pub open spec fn error_message(e: NtpError) -> Seq<char> {
    match e {
        NtpError::Protocol(m) => "NTP协议错误: "@ + m@,
        NtpError::Io => "IO错误"@,
        NtpError::Timeout => "NTP请求超时"@,
        NtpError::TimeParse => "时间解析错误"@,
    }
}

impl NtpError {
    /// The message of the error.
    pub fn to_string(&self) -> (s: String)
        ensures
            s@ == error_message(*self),
    {
        match self {
            NtpError::Protocol(m) => {
                let mut s = String::from_str("NTP协议错误: ");
                s.append(m);
                s
            },
            NtpError::Io => String::from_str("IO错误"),
            NtpError::Timeout => String::from_str("NTP请求超时"),
            NtpError::TimeParse => String::from_str("时间解析错误"),
        }
    }
}

/// The protocol version of the requests sent.
pub const VERSION: u8 = 4;

/// The mode of a request sent by a client.
pub const MODE_CLIENT: u8 = 3;

/// A request packet: version 4 in client mode in the first byte, `transmit`
/// big-endian in the transmit-timestamp field (bytes 40 to 47), every other
/// byte zero.
pub fn request_packet(transmit: u64) -> (p: [u8; 48])
    ensures
        p@[0] == 35,
        forall|i: int| 1 <= i < 40 ==> p@[i] == 0,
        p@.subrange(40, 48) == ordered_bytes(transmit as nat, 8, false),
        ordered_value(p@.subrange(40, 48), false) == transmit,
{
    let mut p = [0u8; 48];
    let first: u8 = (VERSION << 3u8) | MODE_CLIENT;
    assert(first == 35) by (bit_vector)
        requires
            first == (4u8 << 3u8) | 3u8,
    ;
    p[0] = first;
    let b = to_ordered_bytes(transmit as u128, 8, false);
    proof {
        lemma_pow256_values();
        lemma_ordered_roundtrip(transmit as nat, 8, false);
    }
    let mut k: usize = 0;
    while k < 8
        invariant
            k <= 8,
            b@.len() == 8,
            p@.len() == 48,
            p@[0] == 35,
            forall|i: int| 1 <= i < 40 ==> p@[i] == 0,
            forall|i: int| 0 <= i < k ==> p@[40 + i] == b@[i],
        decreases 8 - k,
    {
        p[40 + k] = b[k];
        k = k + 1;
    }
    assert(p@.subrange(40, 48) =~= b@);
    p
}

/// The server's receive and transmit timestamps in an answer: bytes 32 to
/// 39 and 40 to 47, big-endian.
pub fn answer_timestamps(packet: &[u8; 48]) -> (r: (u64, u64))
    ensures
        r.0 == ordered_value(packet@.subrange(32, 40), false),
        r.1 == ordered_value(packet@.subrange(40, 48), false),
{
    let mut receive: Vec<u8> = Vec::new();
    let mut transmit: Vec<u8> = Vec::new();
    let mut k: usize = 0;
    while k < 8
        invariant
            k <= 8,
            packet@.len() == 48,
            receive@ == packet@.subrange(32, 32 + k as int),
            transmit@ == packet@.subrange(40, 40 + k as int),
        decreases 8 - k,
    {
        receive.push(packet[32 + k]);
        transmit.push(packet[40 + k]);
        proof {
            assert(receive@ =~= packet@.subrange(32, 32 + k + 1));
            assert(transmit@ =~= packet@.subrange(40, 40 + k + 1));
        }
        k = k + 1;
    }
    let t2 = from_ordered_bytes(receive.as_slice(), false);
    let t3 = from_ordered_bytes(transmit.as_slice(), false);
    proof {
        lemma_pow256_values();
        lemma_ordered_bytes_of_value(receive@, false);
        lemma_ordered_bytes_of_value(transmit@, false);
    }
    (t2 as u64, t3 as u64)
}

/// What checking an answer packet gives: `None` when it is good, else the
/// reason it is refused.
pub open spec fn spec_validate(packet: Seq<u8>) -> Option<Seq<char>> {
    if packet[0] % 8 != 4 {
        Some("响应模式不正确"@)
    } else if packet[1] == 0 {
        Some("服务器返回Kiss-o'-Death包"@)
    } else if packet[1] == 16 {
        Some("服务器未同步"@)
    } else if packet[1] >= 17 {
        Some("服务器stratum值无效"@)
    } else {
        None
    }
}

/// An answer is accepted exactly when it is in server mode (mode 4) and its
/// stratum is 1 to 15; a server-mode answer of stratum 0 is a
/// Kiss-o'-Death, 16 an unsynchronized server, and above 16 invalid.
pub proof fn lemma_validate_accepts(packet: Seq<u8>)
    requires
        packet.len() == 48,
    ensures
        spec_validate(packet) is None <==> (packet[0] % 8 == 4 && 1 <= packet[1] <= 15),
        packet[0] % 8 != 4 ==> spec_validate(packet) == Some("响应模式不正确"@),
        packet[0] % 8 == 4 && packet[1] == 0 ==> spec_validate(packet) == Some(
            "服务器返回Kiss-o'-Death包"@,
        ),
        packet[0] % 8 == 4 && packet[1] == 16 ==> spec_validate(packet) == Some(
            "服务器未同步"@,
        ),
        packet[0] % 8 == 4 && packet[1] >= 17 ==> spec_validate(packet) == Some(
            "服务器stratum值无效"@,
        ),
{
}

/// Checks an answer: it must be in server mode and from a synchronized
/// server of stratum 1 to 15.
pub fn validate_ntp_response(packet: [u8; 48]) -> (r: Result<(), NtpError>)
    ensures
        match spec_validate(packet@) {
            None => r is Ok,
            Some(msg) => r matches Err(NtpError::Protocol(m)) && m@ == msg,
        },
{
    let b0 = packet[0];
    let mode = b0 & 7u8;
    assert(mode == b0 % 8) by (bit_vector)
        requires
            mode == b0 & 7u8,
    ;
    let stratum = packet[1];
    if mode != MODE_SERVER {
        return Err(NtpError::Protocol("响应模式不正确"));
    }
    if stratum == 0 {
        Err(NtpError::Protocol("服务器返回Kiss-o'-Death包"))
    } else if stratum == 16 {
        Err(NtpError::Protocol("服务器未同步"))
    } else if stratum >= 17 {
        Err(NtpError::Protocol("服务器stratum值无效"))
    } else {
        Ok(())
    }
}

/// The NTP timestamp of a Unix time: seconds since 1900 in the high 32 bits
/// (modulo `2^32`), the fraction of a second in the low 32 bits.
pub open spec fn spec_ntp_timestamp(secs: nat, nanos: nat) -> nat {
    (((secs + EPOCH_DELTA) % 0x1_0000_0000) * 0x1_0000_0000 + (nanos * 0x1_0000_0000)
        / 1_000_000_000) as nat
}

/// The NTP timestamp of the Unix time `secs` seconds and `nanos` nanoseconds.
pub fn system_time_to_ntp_timestamp(secs: u64, nanos: u32) -> (r: u64)
    requires
        nanos < 1_000_000_000,
        secs + EPOCH_DELTA <= u64::MAX,
    ensures
        r == spec_ntp_timestamp(secs as nat, nanos as nat),
{
    let s = secs + EPOCH_DELTA;
    let frac: u64 = ((nanos as u64) << 32u64) / 1_000_000_000;
    assert(((nanos as u64) << 32u64) == (nanos as u64) * 0x1_0000_0000) by (bit_vector)
        requires
            nanos < 1_000_000_000,
    ;
    assert(frac < 0x1_0000_0000) by (nonlinear_arith)
        requires
            frac == ((nanos as u64) * 0x1_0000_0000) / 1_000_000_000,
            nanos < 1_000_000_000,
    ;
    let r = (s << 32u64) | frac;
    assert(r == (s % 0x1_0000_0000) * 0x1_0000_0000 + frac) by (bit_vector)
        requires
            r == (s << 32u64) | frac,
            frac < 0x1_0000_0000,
    ;
    r
}

/// The Unix time of an NTP timestamp, as seconds and nanoseconds.
pub open spec fn spec_unix_time(ntp: nat) -> (int, nat) {
    (
        (ntp / 0x1_0000_0000) as int - EPOCH_DELTA as int,
        ((ntp % 0x1_0000_0000) * 1_000_000_000) / 0x1_0000_0000,
    )
}

/// The Unix time of an NTP timestamp, as seconds and nanoseconds.
pub fn ntp_to_unix_timestamp(ntp: u64) -> (r: (i64, u32))
    ensures
        r.0 == spec_unix_time(ntp as nat).0,
        r.1 == spec_unix_time(ntp as nat).1,
        r.1 < 1_000_000_000,
{
    let high = ntp >> 32u64;
    let low = ntp & 0xFFFF_FFFFu64;
    assert(high == ntp / 0x1_0000_0000 && low == ntp % 0x1_0000_0000) by (bit_vector)
        requires
            high == ntp >> 32u64,
            low == ntp & 0xFFFF_FFFFu64,
    ;
    let secs = high as i64 - EPOCH_DELTA as i64;
    assert(low * 1_000_000_000 <= 0xFFFF_FFFF * 1_000_000_000) by (nonlinear_arith)
        requires
            low <= 0xFFFF_FFFF,
    ;
    let product: u64 = low * 1_000_000_000;
    let nanos = product >> 32u64;
    assert(nanos == product / 0x1_0000_0000) by (bit_vector)
        requires
            nanos == product >> 32u64,
    ;
    assert(nanos < 1_000_000_000) by (nonlinear_arith)
        requires
            nanos == product / 0x1_0000_0000,
            product == low * 1_000_000_000,
            low < 0x1_0000_0000,
    ;
    (secs, nanos as u32)
}

/// A Unix time within the NTP era reads back from its NTP timestamp, with
/// the nanoseconds at most one short.
pub proof fn lemma_ntp_roundtrip(secs: nat, nanos: nat)
    requires
        secs + EPOCH_DELTA < 0x1_0000_0000,
        nanos < 1_000_000_000,
    ensures
        spec_unix_time(spec_ntp_timestamp(secs, nanos)).0 == secs,
        nanos - 1 <= spec_unix_time(spec_ntp_timestamp(secs, nanos)).1 <= nanos,
{
    let s = (secs + EPOCH_DELTA) as nat;
    let frac = (nanos * 0x1_0000_0000) / 1_000_000_000;
    assert(frac < 0x1_0000_0000) by (nonlinear_arith)
        requires
            frac == (nanos * 0x1_0000_0000) / 1_000_000_000,
            nanos < 1_000_000_000,
    ;
    vstd::arithmetic::div_mod::lemma_small_mod(s, 0x1_0000_0000);
    let t = s * 0x1_0000_0000 + frac;
    vstd::arithmetic::div_mod::lemma_fundamental_div_mod_converse(
        t as int,
        0x1_0000_0000,
        s as int,
        frac as int,
    );
    let back = (frac * 1_000_000_000) / 0x1_0000_0000;
    assert(nanos - 1 <= back <= nanos) by (nonlinear_arith)
        requires
            frac == (nanos * 0x1_0000_0000) / 1_000_000_000,
            back == (frac * 1_000_000_000) / 0x1_0000_0000,
            nanos < 1_000_000_000,
    ;
}

/// How many of the samples with the longest round trips are dropped, for

/// The largest distance from the epoch, in nanoseconds, that a time of an
/// exchange is taken to lie within (about 31,000 years).
pub const TIME_BOUND_NANOS: i128 = 1_000_000_000_000_000_000_000_000_000;

/// `x / 2` rounded down.
fn half_floor(x: i128) -> (r: i128)
    requires
        -4 * TIME_BOUND_NANOS <= x <= 4 * TIME_BOUND_NANOS,
    ensures
        r == x / 2,
{
    if x >= 0 {
        x / 2
    } else {
        let m: i128 = -x;
        let h = (m + 1) / 2;
        assert(-h == x / 2) by (nonlinear_arith)
            requires
                x < 0,
                m == -x,
                h == (m + 1) / 2,
        ;
        -h
    }
}

/// Whether a number of nanoseconds fits an `i64`.
pub open spec fn fits_i64(x: int) -> bool {
    i64::MIN <= x <= i64::MAX
}

/// The clock offset of an exchange, θ = ((T2 − T1) + (T4 − T3)) / 2,
/// rounded down to the nanosecond (as the halving of a `chrono` time delta
/// does).
pub open spec fn spec_clock_offset(t1: int, t2: int, t3: int, t4: int) -> int {
    ((t2 - t1) + (t4 - t3)) / 2
}

/// The round trip of an exchange, (T4 − T1) − (T3 − T2).
pub open spec fn spec_round_trip(t1: int, t2: int, t3: int, t4: int) -> int {
    (t4 - t1) - (t3 - t2)
}

/// The clock offset of an exchange whose four times (sent, received by the
/// server, sent by the server, received) are given in nanoseconds since
/// the epoch; `None` where it does not fit an `i64`.
pub fn clock_offset(t1: i128, t2: i128, t3: i128, t4: i128) -> (r: Option<i64>)
    requires
        -TIME_BOUND_NANOS <= t1 <= TIME_BOUND_NANOS,
        -TIME_BOUND_NANOS <= t2 <= TIME_BOUND_NANOS,
        -TIME_BOUND_NANOS <= t3 <= TIME_BOUND_NANOS,
        -TIME_BOUND_NANOS <= t4 <= TIME_BOUND_NANOS,
    ensures
        r == (if fits_i64(spec_clock_offset(t1 as int, t2 as int, t3 as int, t4 as int)) {
            Some(spec_clock_offset(t1 as int, t2 as int, t3 as int, t4 as int) as i64)
        } else {
            None
        }),
{
    let v = half_floor((t2 - t1) + (t4 - t3));
    if -9_223_372_036_854_775_808i128 <= v && v <= 9_223_372_036_854_775_807i128 {
        Some(v as i64)
    } else {
        None
    }
}

/// The round trip of an exchange, in nanoseconds; `None` where it does not
/// fit an `i64`.
pub fn round_trip_delay(t1: i128, t2: i128, t3: i128, t4: i128) -> (r: Option<i64>)
    requires
        -TIME_BOUND_NANOS <= t1 <= TIME_BOUND_NANOS,
        -TIME_BOUND_NANOS <= t2 <= TIME_BOUND_NANOS,
        -TIME_BOUND_NANOS <= t3 <= TIME_BOUND_NANOS,
        -TIME_BOUND_NANOS <= t4 <= TIME_BOUND_NANOS,
    ensures
        r == (if fits_i64(spec_round_trip(t1 as int, t2 as int, t3 as int, t4 as int)) {
            Some(spec_round_trip(t1 as int, t2 as int, t3 as int, t4 as int) as i64)
        } else {
            None
        }),
{
    let v = (t4 - t1) - (t3 - t2);
    if -9_223_372_036_854_775_808i128 <= v && v <= 9_223_372_036_854_775_807i128 {
        Some(v as i64)
    } else {
        None
    }
}

/// `n` successful samples (at least 3).
pub open spec fn spec_filter_count(n: nat) -> nat {
    if n >= 8 {
        3
    } else if n >= 5 {
        2
    } else {
        0
    }
}

pub fn filter_count(success_count: usize) -> (r: usize)
    requires
        success_count >= 3,
    ensures
        r == spec_filter_count(success_count as nat),
        r < success_count,
{
    if success_count >= 8 {
        3
    } else if success_count >= 5 {
        2
    } else {
        0
    }
}

/// The answer to a request for one NTP synchronization.
#[derive(Debug, Clone)]
pub enum NtpSyncResult {
    Delta(String),
    Error(String),
}

/// The pieces of a text between commas.
pub open spec fn split_commas(s: Seq<char>) -> Seq<Seq<char>>
    decreases s.len(),
{
    if s.len() == 0 {
        seq![Seq::empty()]
    } else {
        let rest = split_commas(s.drop_last());
        if s.last() == ',' {
            rest.push(Seq::empty())
        } else {
            rest.update(rest.len() - 1, rest.last().push(s.last()))
        }
    }
}

/// The pieces trimmed, without the empty ones.
pub open spec fn trimmed_entries(pieces: Seq<Seq<char>>) -> Seq<Seq<char>>
    decreases pieces.len(),
{
    if pieces.len() == 0 {
        Seq::empty()
    } else {
        let rest = trimmed_entries(pieces.drop_last());
        let t = spec_trim(pieces.last());
        if t.len() > 0 {
            rest.push(t)
        } else {
            rest
        }
    }
}

/// The server names of a comma-separated list, trimmed, without empty ones.
pub open spec fn spec_server_list(s: Seq<char>) -> Seq<Seq<char>> {
    trimmed_entries(split_commas(s))
}

proof fn lemma_split_commas_nonempty(s: Seq<char>)
    ensures
        split_commas(s).len() >= 1,
    decreases s.len(),
{
    if s.len() > 0 {
        lemma_split_commas_nonempty(s.drop_last());
    }
}

/// The NTP servers to ask, in order.
pub struct Servers {
    inner: Vec<String>,
}

impl Servers {
    pub closed spec fn names(&self) -> Seq<Seq<char>> {
        self.inner@.map_values(|x: String| x@)
    }

    /// The servers of a comma-separated list (as the `NTP_SERVERS` variable
    /// holds it): each name trimmed, empty names dropped.
    pub fn init(list: &str) -> (r: Servers)
        ensures
            r.names() == spec_server_list(list@),
    {
        let n = list.unicode_len();
        let mut out: Vec<String> = Vec::new();
        let mut start: usize = 0;
        let mut i: usize = 0;
        proof {
            assert(list@.take(0) =~= Seq::<char>::empty());
        }
        while i < n
            invariant
                n == list@.len(),
                start <= i <= n,
                out@.map_values(|x: String| x@) == trimmed_entries(
                    split_commas(list@.take(i as int)).drop_last(),
                ),
                split_commas(list@.take(i as int)).len() >= 1,
                split_commas(list@.take(i as int)).last() == list@.subrange(
                    start as int,
                    i as int,
                ),
            decreases n - i,
        {
            let c = list.get_char(i);
            proof {
                let t = list@.take(i + 1);
                assert(t.drop_last() =~= list@.take(i as int));
                assert(t.last() == c);
                lemma_split_commas_nonempty(list@.take(i as int));
            }
            if c == ',' {
                let piece = trim(list.substring_char(start, i));
                let ghost before = split_commas(list@.take(i as int));
                proof {
                    assert(before.push(Seq::empty()).drop_last() =~= before);
                    assert(before =~= before.drop_last().push(before.last()));
                }
                if piece.unicode_len() > 0 {
                    out.push(String::from_str(piece));
                }
                proof {
                    assert(out@.map_values(|x: String| x@) =~= trimmed_entries(before));
                }
                start = i + 1;
                proof {
                    assert(list@.subrange(start as int, i + 1) =~= Seq::<char>::empty());
                }
            } else {
                proof {
                    let before = split_commas(list@.take(i as int));
                    let after = before.update(before.len() - 1, before.last().push(c));
                    assert(after.drop_last() =~= before.drop_last());
                    assert(list@.subrange(start as int, i + 1) =~= list@.subrange(
                        start as int,
                        i as int,
                    ).push(c));
                }
            }
            i = i + 1;
        }
        proof {
            assert(list@.take(n as int) =~= list@);
        }
        let piece = trim(list.substring_char(start, n));
        let ghost all = split_commas(list@);
        proof {
            lemma_split_commas_nonempty(list@);
            assert(all =~= all.drop_last().push(all.last()));
        }
        if piece.unicode_len() > 0 {
            out.push(String::from_str(piece));
        }
        proof {
            assert(out@.map_values(|x: String| x@) =~= trimmed_entries(all));
        }
        Servers { inner: out }
    }

    /// The number of servers.
    pub fn len(&self) -> (r: usize)
        ensures
            r == self.names().len(),
    {
        self.inner.len()
    }

    /// The name of the `i`-th server.
    pub fn get(&self, i: usize) -> (r: &str)
        requires
            i < self.names().len(),
        ensures
            r@ == self.names()[i as int],
    {
        self.inner[i].as_str()
    }
}

/// Samples in order of round trip, shortest first.
pub open spec fn sorted_by_rtt(s: Seq<(i64, i64)>) -> bool {
    forall|i: int, j: int| 0 <= i <= j < s.len() ==> #[trigger] s[i].1 <= #[trigger] s[j].1
}

/// The samples of `s` whose round trip is `rtt`, in the order of `s`.
pub open spec fn with_rtt(s: Seq<(i64, i64)>, rtt: i64) -> Seq<(i64, i64)> {
    s.filter(has_rtt(rtt))
}

/// Whether a sample's round trip is `rtt`.
pub open spec fn has_rtt(rtt: i64) -> spec_fn((i64, i64)) -> bool {
    |p: (i64, i64)| p.1 == rtt
}

/// Inserting `x` where everything before has a round trip of at most `x`'s
/// and everything after a longer one appends `x` to the samples that share
/// its round trip and leaves the others alone.
proof fn lemma_with_rtt_insert(before: Seq<(i64, i64)>, p: int, x: (i64, i64), rtt: i64)
    requires
        0 <= p <= before.len(),
        forall|k: int| p <= k < before.len() ==> #[trigger] before[k].1 > x.1,
    ensures
        with_rtt(before.insert(p, x), rtt) == if x.1 == rtt {
            with_rtt(before, rtt).push(x)
        } else {
            with_rtt(before, rtt)
        },
{
    let pred = has_rtt(rtt);
    let head = before.take(p);
    let tail = before.skip(p);
    assert(before =~= head + tail);
    assert(before.insert(p, x) =~= head + seq![x] + tail);
    Seq::filter_distributes_over_add(head, tail, pred);
    Seq::filter_distributes_over_add(head + seq![x], tail, pred);
    Seq::filter_distributes_over_add(head, seq![x], pred);
    Seq::<(i64, i64)>::empty().lemma_filter_push(x, pred);
    assert(Seq::<(i64, i64)>::empty().push(x) =~= seq![x]);
    assert(Seq::<(i64, i64)>::empty().filter(pred) =~= Seq::<(i64, i64)>::empty()) by {
        reveal(Seq::filter);
    }
    if x.1 == rtt {
        assert(tail.all(|q: (i64, i64)| !pred(q)));
        tail.lemma_all_neg_filter_empty(pred);
        assert(tail.filter(pred) =~= Seq::<(i64, i64)>::empty());
        assert(head.filter(pred) + seq![x] =~= head.filter(pred).push(x));
        assert(head.filter(pred) + Seq::<(i64, i64)>::empty() =~= head.filter(pred));
    } else {
        assert(head.filter(pred) + Seq::<(i64, i64)>::empty() =~= head.filter(pred));
    }
}

/// The samples `(offset, round trip)` sorted by round trip; samples with
/// equal round trips keep their order.
pub fn sort_by_rtt(samples: &Vec<(i64, i64)>) -> (r: Vec<(i64, i64)>)
    ensures
        sorted_by_rtt(r@),
        r@.to_multiset() == samples@.to_multiset(),
        forall|rtt: i64| #[trigger] with_rtt(r@, rtt) == with_rtt(samples@, rtt),
{
    broadcast use vstd::seq_lib::group_to_multiset_ensures;

    let mut out: Vec<(i64, i64)> = Vec::new();
    let mut i: usize = 0;
    while i < samples.len()
        invariant
            i <= samples@.len(),
            sorted_by_rtt(out@),
            out@.to_multiset() == samples@.take(i as int).to_multiset(),
            forall|rtt: i64| #[trigger] with_rtt(out@, rtt) == with_rtt(
                samples@.take(i as int),
                rtt,
            ),
        decreases samples@.len() - i,
    {
        let x = samples[i];
        let mut p = out.len();
        while p > 0 && out[p - 1].1 > x.1
            invariant
                p <= out@.len(),
                sorted_by_rtt(out@),
                forall|k: int| p <= k < out@.len() ==> #[trigger] out@[k].1 > x.1,
            decreases p,
        {
            p = p - 1;
        }
        let ghost before = out@;
        out.insert(p, x);
        proof {
            vstd::seq_lib::to_multiset_insert(before, p as int, x);
            assert(samples@.take(i + 1) =~= samples@.take(i as int).push(x));
            vstd::seq_lib::to_multiset_build(samples@.take(i as int), x);
            assert(out@ =~= before.insert(p as int, x));
            assert forall|rtt: i64| #[trigger] with_rtt(out@, rtt) == with_rtt(
                samples@.take(i + 1),
                rtt,
            ) by {
                lemma_with_rtt_insert(before, p as int, x, rtt);
                samples@.take(i as int).lemma_filter_push(x, has_rtt(rtt));
            }
            assert forall|a: int, b: int| 0 <= a <= b < out@.len() implies #[trigger] out@[a].1
                <= #[trigger] out@[b].1 by {
                if a < p && b < p {
                    assert(out@[a] == before[a] && out@[b] == before[b]);
                } else if a < p && b == p {
                    assert(out@[a] == before[a]);
                    assert(before[a].1 <= before[p - 1].1);
                } else if a < p {
                    assert(out@[a] == before[a] && out@[b] == before[b - 1]);
                } else if a == p && b > p {
                    assert(out@[b] == before[b - 1]);
                } else if a > p {
                    assert(out@[a] == before[a - 1] && out@[b] == before[b - 1]);
                }
            }
        }
        i = i + 1;
    }
    proof {
        assert(samples@.take(samples@.len() as int) =~= samples@);
    }
    out
}

/// The samples averaged after a synchronization: at least 3 are needed;
/// they are sorted by round trip and the slowest `filter_count` dropped.
pub fn select_samples(samples: &Vec<(i64, i64)>) -> (r: Option<Vec<(i64, i64)>>)
    ensures
        match r {
            None => samples@.len() < 3,
            Some(v) => samples@.len() >= 3 && exists|s: Seq<(i64, i64)>|
                {
                    &&& sorted_by_rtt(s)
                    &&& s.to_multiset() == samples@.to_multiset()
                    &&& forall|rtt: i64| #[trigger] with_rtt(s, rtt) == with_rtt(samples@, rtt)
                    &&& v@ == s.take(
                        samples@.len() - spec_filter_count(samples@.len()) as int,
                    )
                },
        },
{
    let n = samples.len();
    if n < 3 {
        return None;
    }
    let mut sorted = sort_by_rtt(samples);
    let ghost all = sorted@;
    proof {
        vstd::seq_lib::to_multiset_len(sorted@);
        vstd::seq_lib::to_multiset_len(samples@);
    }
    let keep = n - filter_count(n);
    sorted.truncate(keep);
    assert(sorted@ =~= all.take(keep as int));
    Some(sorted)
}

} // verus!

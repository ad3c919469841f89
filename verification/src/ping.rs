//! The server list ping: VarInt framing, the handshake, and reading the status reply.
use vstd::prelude::*;
use vstd::string::StringSliceAdditionalSpecFns;

verus! {

/// The VarInt encoding of a non-negative number: seven bits per byte, least
/// significant group first, the high bit set on every byte but the last.
pub open spec fn var_int_bytes(v: nat) -> Seq<u8>
    decreases v,
{
    if v < 128 {
        seq![v as u8]
    } else {
        seq![((v % 128) + 128) as u8] + var_int_bytes(v / 128)
    }
}

/// The number carried by VarInt bytes: the low seven bits of each byte, weighted by
/// `128^i`.
pub open spec fn var_int_sum(bytes: Seq<u8>) -> nat
    decreases bytes.len(),
{
    if bytes.len() == 0 {
        0
    } else {
        ((bytes[0] % 128) as nat) + 128 * var_int_sum(bytes.drop_first())
    }
}

/// `x` reduced to 32 bits and read as a two's-complement `i32`.
pub open spec fn wrap_i32(x: nat) -> int {
    let low = x % 0x1_0000_0000;
    if low >= 0x8000_0000 {
        low - 0x1_0000_0000
    } else {
        low as int
    }
}

/// `128^k`.
pub open spec fn pow128(k: nat) -> nat
    decreases k,
{
    if k == 0 {
        1
    } else {
        128 * pow128((k - 1) as nat)
    }
}

/// `bytes` starts with a complete VarInt of `n` bytes (at most five) whose value is `v`.
pub open spec fn var_int_decoded(bytes: Seq<u8>, v: int, n: nat) -> bool {
    &&& 1 <= n <= 5
    &&& n <= bytes.len()
    &&& bytes[n - 1] < 128
    &&& forall|j: int| 0 <= j < n - 1 ==> bytes[j] >= 128
    &&& v == wrap_i32(var_int_sum(bytes.take(n as int)))
}

/// The first five bytes (or all of them, if fewer) carry the continuation bit.
pub open spec fn no_var_int_end(bytes: Seq<u8>) -> bool {
    forall|j: int| 0 <= j < bytes.len() && j < 5 ==> bytes[j] >= 128
}

/// The reader would shift past 32 bits: five continuation bytes and a sixth byte.
pub open spec fn var_int_overlong(bytes: Seq<u8>) -> bool {
    bytes.len() >= 6 && no_var_int_end(bytes)
}

proof fn lemma_low_bits(v: i32)
    requires
        v >= 0,
    ensures
        (v & 0x7F) as int == v % 128,
        (v >> 7) as int == v / 128,
        0 <= v & 0x7F < 128,
{
    assert((v & 0x7F) as int == v % 128 && (v >> 7) as int == v / 128 && 0 <= v & 0x7F < 128)
        by (bit_vector)
        requires
            v >= 0,
    ;
}

proof fn lemma_set_high(t: u8)
    requires
        t < 128,
    ensures
        (t | 0x80) as int == t + 128,
{
    assert((t | 0x80) as int == t + 128) by (bit_vector)
        requires
            t < 128,
    ;
}

/// Appends the VarInt encoding of `value` to `buf`. A negative value would never
/// finish (the arithmetic shift keeps the sign), so it is excluded.
pub fn write_var_int(buf: &mut Vec<u8>, value: i32)
    requires
        value >= 0,
    ensures
        final(buf)@ == old(buf)@ + var_int_bytes(value as nat),
{
    let mut value = value;
    let ghost orig = value;
    loop
        invariant_except_break
            value >= 0,
            buf@ + var_int_bytes(value as nat) == old(buf)@ + var_int_bytes(orig as nat),
        ensures
            buf@ == old(buf)@ + var_int_bytes(orig as nat),
        decreases value,
    {
        let ghost before = value;
        proof {
            lemma_low_bits(value);
        }
        let mut temp = (value & 0x7F) as u8;
        value >>= 7;
        if value != 0 {
            proof {
                lemma_set_high(temp);
            }
            temp |= 0x80;
        }
        proof {
            if value != 0 {
                assert(var_int_bytes(before as nat) == seq![temp] + var_int_bytes(value as nat));
            } else {
                assert(var_int_bytes(before as nat) == seq![temp]);
            }
        }
        let ghost prev = buf@;
        buf.push(temp);
        proof {
            assert(prev + var_int_bytes(before as nat) == buf@ + (if value != 0 {
                var_int_bytes(value as nat)
            } else {
                Seq::empty()
            }));
        }
        if value == 0 {
            assert(buf@ + Seq::<u8>::empty() == buf@);
            break;
        }
    }
}

/// Appends a length-prefixed UTF-8 string.
pub fn write_string(buf: &mut Vec<u8>, s: &str)
    requires
        s.spec_bytes().len() <= i32::MAX,
    ensures
        final(buf)@ == old(buf)@ + var_int_bytes(s.spec_bytes().len()) + s.spec_bytes(),
{
    let bytes = s.as_bytes();
    write_var_int(buf, bytes.len() as i32);
    let ghost mid = buf@;
    let mut i: usize = 0;
    while i < bytes.len()
        invariant
            i <= bytes@.len(),
            buf@ == mid + bytes@.take(i as int),
        decreases bytes.len() - i,
    {
        buf.push(bytes[i]);
        i = i + 1;
        assert(bytes@.take(i as int) == bytes@.take(i - 1).push(bytes@[i - 1]));
    }
    assert(bytes@.take(bytes@.len() as int) == bytes@);
}

/// The host name as sent in the handshake: cut to 255 bytes. The cut must fall on a
/// character boundary, since slicing a `str` elsewhere panics.
pub fn truncate_host(host: &str) -> (r: &str)
    requires
        host.spec_bytes().len() > 255 ==> vstd::utf8::is_char_boundary(host.spec_bytes(), 255),
    ensures
        r.spec_bytes() == (if host.spec_bytes().len() > 255 {
            host.spec_bytes().take(255)
        } else {
            host.spec_bytes()
        }),
{
    if host.as_bytes().len() > 255 {
        let parts = host.split_at(255);
        assert(host.spec_bytes().subrange(0, 255) =~= host.spec_bytes().take(255));
        parts.0
    } else {
        host
    }
}

/// The handshake that asks for the server status: packet id 0, protocol 47, the
/// host, the port in big-endian order, next state 1.
pub open spec fn handshake_bytes(host: Seq<u8>, port: u16) -> Seq<u8> {
    var_int_bytes(0) + var_int_bytes(47) + var_int_bytes(host.len()) + host + seq![
        (port / 256) as u8,
        (port % 256) as u8,
    ] + var_int_bytes(1)
}

/// The handshake payload for a status request to `host:port`.
pub fn handshake_payload(host: &str, port: u16) -> (r: Vec<u8>)
    requires
        host.spec_bytes().len() > 255 ==> vstd::utf8::is_char_boundary(host.spec_bytes(), 255),
    ensures
        r@ == handshake_bytes(
            if host.spec_bytes().len() > 255 {
                host.spec_bytes().take(255)
            } else {
                host.spec_bytes()
            },
            port,
        ),
{
    let host = truncate_host(host);
    let mut handshake: Vec<u8> = Vec::new();
    write_var_int(&mut handshake, 0x00);
    write_var_int(&mut handshake, 47);
    write_string(&mut handshake, host);
    handshake.push((port / 256) as u8);
    handshake.push((port % 256) as u8);
    write_var_int(&mut handshake, 1);
    handshake
}

/// The status request payload: packet id 0 and nothing else.
pub fn status_request_payload() -> (r: Vec<u8>)
    ensures
        r@ == var_int_bytes(0),
{
    let mut request: Vec<u8> = Vec::new();
    write_var_int(&mut request, 0x00);
    request
}

/// A packet on the wire: its length as a VarInt, then the payload.
pub fn frame_packet(payload: &Vec<u8>) -> (r: Vec<u8>)
    requires
        payload.len() <= i32::MAX,
    ensures
        r@ == var_int_bytes(payload.len() as nat) + payload@,
{
    let mut packet: Vec<u8> = Vec::new();
    write_var_int(&mut packet, payload.len() as i32);
    let ghost mid = packet@;
    let mut i: usize = 0;
    while i < payload.len()
        invariant
            i <= payload.len(),
            packet@ == mid + payload@.take(i as int),
        decreases payload.len() - i,
    {
        packet.push(payload[i]);
        i = i + 1;
        assert(payload@.take(i as int) == payload@.take(i - 1).push(payload@[i - 1]));
    }
    assert(payload@.take(payload.len() as int) == payload@);
    packet
}

/// A reply length is accepted when it is positive and at most 65536.
pub fn packet_length_ok(len: i32) -> (ok: bool)
    ensures
        ok == (0 < len <= 65536),
{
    !(len <= 0 || len > 65536)
}

/// A VarInt being read one byte at a time.
pub struct VarIntReader {
    acc: u64,
    count: u32,
}

/// What one more byte does to a VarInt being read.
pub enum VarIntStep {
    /// The byte carried the continuation bit: read another.
    More(VarIntReader),
    /// The byte ended the VarInt, whose value this is.
    Done(i32),
}

impl VarIntReader {
    /// The sum of the bytes read so far.
    pub closed spec fn total(&self) -> nat {
        self.acc as nat
    }

    /// How many bytes have been read so far.
    pub closed spec fn bytes_read(&self) -> nat {
        self.count as nat
    }

    /// The reader's fields agree: at most five bytes read, their sum below `128^count`.
    pub closed spec fn wf(&self) -> bool {
        self.count <= 5 && self.acc < pow128(self.count as nat)
    }

    /// A reader that has read nothing.
    pub fn new() -> (r: VarIntReader)
        ensures
            r.wf(),
            r.total() == 0,
            r.bytes_read() == 0,
    {
        VarIntReader { acc: 0, count: 0 }
    }

    /// Another byte may be read: fewer than five so far. A sixth would shift past
    /// the 32 bits of the value.
    pub fn can_read(&self) -> (b: bool)
        ensures
            b == (self.bytes_read() < 5),
    {
        self.count < 5
    }

    /// Reads one byte.
    pub fn feed(self, byte: u8) -> (step: VarIntStep)
        requires
            self.wf(),
            self.bytes_read() < 5,
        ensures
            ({
                let total = self.total() + (byte % 128) as nat * pow128(self.bytes_read());
                match step {
                    VarIntStep::Done(v) => byte < 128 && v == wrap_i32(total),
                    VarIntStep::More(r) => byte >= 128 && r.wf() && r.total() == total
                        && r.bytes_read() == self.bytes_read() + 1,
                }
            }),
    {
        proof {
            lemma_pow128_bounds(self.count as nat);
        }
        let low = (byte % 128) as u64;
        let mult = pow128_exec(self.count);
        assert(low * mult < 128 * mult) by (nonlinear_arith)
            requires
                low < 128,
                mult > 0,
        ;
        let acc = self.acc + low * mult;
        proof {
            assert(pow128((self.count + 1) as nat) == 128 * pow128(self.count as nat));
            assert(self.acc + low * mult < 128 * mult) by (nonlinear_arith)
                requires
                    self.acc < mult,
                    low < 128,
            ;
            assert(low == (byte % 128) as nat);
        }
        if byte < 128 {
            VarIntStep::Done(wrap_u64(acc))
        } else {
            VarIntStep::More(VarIntReader { acc, count: self.count + 1 })
        }
    }
}

proof fn lemma_pow128_bounds(k: nat)
    requires
        k <= 5,
    ensures
        1 <= pow128(k) <= 0x8_0000_0000,
        k < 5 ==> 128 * pow128(k) <= 0x8_0000_0000,
{
    reveal_with_fuel(pow128, 6);
}

fn pow128_exec(k: u32) -> (r: u64)
    requires
        k <= 5,
    ensures
        r == pow128(k as nat),
{
    proof {
        lemma_pow128_bounds(k as nat);
    }
    let mut r: u64 = 1;
    let mut i: u32 = 0;
    while i < k
        invariant
            i <= k <= 5,
            r == pow128(i as nat),
        decreases k - i,
    {
        proof {
            lemma_pow128_bounds(i as nat);
        }
        r = r * 128;
        i = i + 1;
    }
    r
}

fn wrap_u64(x: u64) -> (v: i32)
    ensures
        v == wrap_i32(x as nat),
{
    let low = x % 0x1_0000_0000;
    if low >= 0x8000_0000 {
        let over = (low - 0x8000_0000) as i32;
        over - 0x7fff_ffff - 1
    } else {
        low as i32
    }
}

proof fn lemma_sum_push(bytes: Seq<u8>, b: u8)
    ensures
        var_int_sum(bytes.push(b)) == var_int_sum(bytes) + (b % 128) as nat * pow128(
            bytes.len(),
        ),
    decreases bytes.len(),
{
    if bytes.len() == 0 {
        let bp = bytes.push(b);
        assert(bp.drop_first().len() == 0);
        assert(var_int_sum(bp.drop_first()) == 0);
        assert(var_int_sum(bytes) == 0);
        assert(bp[0] == b);
        assert(pow128(0) == 1);
        assert(var_int_sum(bp) == (b % 128) as nat);
    } else {
        let bp = bytes.push(b);
        assert(bp.drop_first() == bytes.drop_first().push(b));
        assert(bp[0] == bytes[0]);
        lemma_sum_push(bytes.drop_first(), b);
        let p = pow128((bytes.len() - 1) as nat);
        assert(pow128(bytes.len()) == 128 * p);
        let x = (b % 128) as nat;
        let t = var_int_sum(bytes.drop_first());
        assert(var_int_sum(bp) == (bytes[0] % 128) as nat + 128 * (t + x * p));
        assert(var_int_sum(bytes) == (bytes[0] % 128) as nat + 128 * t);
        assert(128 * (t + x * p) == 128 * t + x * (128 * p)) by (nonlinear_arith);
    }
}

/// Reads a VarInt from the front of `bytes`: `Some((value, length))`, or `None` when
/// the bytes end before the VarInt does.
pub fn read_var_int(bytes: &[u8]) -> (r: Option<(i32, usize)>)
    requires
        !var_int_overlong(bytes@),
    ensures
        match r {
            Some((v, n)) => var_int_decoded(bytes@, v as int, n as nat),
            None => no_var_int_end(bytes@),
        },
{
    let mut reader = VarIntReader::new();
    let mut i: usize = 0;
    while i < bytes.len()
        invariant
            i <= bytes@.len(),
            i <= 5,
            !var_int_overlong(bytes@),
            reader.wf(),
            reader.bytes_read() == i,
            reader.total() == var_int_sum(bytes@.take(i as int)),
            forall|j: int| 0 <= j < i ==> bytes@[j] >= 128,
        decreases bytes.len() - i,
    {
        if !reader.can_read() {
            assert(false);
            return None;
        }
        let b = bytes[i];
        proof {
            assert(bytes@.take(i + 1) == bytes@.take(i as int).push(b));
            lemma_sum_push(bytes@.take(i as int), b);
        }
        match reader.feed(b) {
            VarIntStep::Done(v) => {
                return Some((v, i + 1));
            },
            VarIntStep::More(next) => {
                reader = next;
            },
        }
        i = i + 1;
    }
    None
}

/// Bytes that begin with the encoding of `v` decode to `v`, taking exactly the
/// encoding's length: what `write_var_int` writes, `read_var_int` reads back.
pub proof fn var_int_roundtrip(v: int, rest: Seq<u8>)
    requires
        0 <= v <= i32::MAX,
    ensures
        var_int_decoded(
            var_int_bytes(v as nat) + rest,
            v,
            var_int_bytes(v as nat).len(),
        ),
        !var_int_overlong(var_int_bytes(v as nat) + rest),
{
    assert(pow128(5) == 0x8_0000_0000) by {
        reveal_with_fuel(pow128, 6);
    }
    lemma_encoding_shape(v as nat, 5);
    let e = var_int_bytes(v as nat);
    assert((e + rest).take(e.len() as int) == e);
    lemma_sum_of_encoding(v as nat);
    assert(e[e.len() - 1] < 128);
    assert((e + rest)[e.len() - 1] == e[e.len() - 1]);
    assert forall|j: int| 0 <= j < e.len() - 1 implies (e + rest)[j] >= 128 by {
        assert((e + rest)[j] == e[j]);
    }
}

proof fn lemma_encoding_shape(v: nat, k: nat)
    requires
        1 <= k,
        v < pow128(k),
    ensures
        1 <= var_int_bytes(v).len() <= k,
        var_int_bytes(v)[var_int_bytes(v).len() - 1] < 128,
        forall|j: int| 0 <= j < var_int_bytes(v).len() - 1 ==> var_int_bytes(v)[j] >= 128,
    decreases v,
{
    if v >= 128 {
        assert(k >= 2) by {
            if k == 1 {
                assert(pow128(1) == 128 * pow128(0));
            }
        }
        assert(pow128(k) == 128 * pow128((k - 1) as nat));
        lemma_encoding_shape(v / 128, (k - 1) as nat);
        let t = var_int_bytes(v / 128);
        assert(var_int_bytes(v) == seq![((v % 128) + 128) as u8] + t);
        assert forall|j: int| 0 <= j < var_int_bytes(v).len() - 1 implies var_int_bytes(v)[j]
            >= 128 by {
            if j > 0 {
                assert(var_int_bytes(v)[j] == t[j - 1]);
            }
        }
    }
}

proof fn lemma_sum_of_encoding(v: nat)
    ensures
        var_int_sum(var_int_bytes(v)) == v,
    decreases v,
{
    if v < 128 {
        let e = var_int_bytes(v);
        assert(e.drop_first().len() == 0);
        assert(var_int_sum(e.drop_first()) == 0);
        assert(e[0] == v as u8);
        assert((v as u8) as int == v);
    } else {
        lemma_sum_of_encoding(v / 128);
        let e = var_int_bytes(v);
        assert(e.drop_first() == var_int_bytes(v / 128));
        let first = ((v % 128) + 128) as u8;
        assert(e[0] == first);
        assert(first as int == (v % 128) + 128);
        assert(first % 128 == v % 128);
        assert(v == v % 128 + 128 * (v / 128));
    }
}

// ---------------------------------------------------------------------------
// The status reply
// ---------------------------------------------------------------------------

/// What the server said about its players.
pub struct StatusPlayers {
    pub online: i32,
    pub max: i32,
}

/// The status JSON, as far as the launcher reads it.
pub struct StatusResponse {
    pub players: Option<StatusPlayers>,
}

/// The outcome of a ping.
pub struct PingResult {
    pub online: bool,
    pub players_online: u32,
    pub players_max: u32,
    pub latency_ms: u32,
}

impl PingResult {
    /// The answer when the server could not be reached.
    pub fn offline() -> (r: PingResult)
        ensures
            !r.online,
            r.players_online == 0,
            r.players_max == 0,
            r.latency_ms == 0,
    {
        PingResult { online: false, players_online: 0, players_max: 0, latency_ms: 0 }
    }
}

/// Index of the first `{` in `payload`, or 1 when there is none.
pub open spec fn json_start(payload: Seq<u8>) -> int {
    if exists|i: int| 0 <= i < payload.len() && payload[i] == 0x7b {
        choose|i: int|
            0 <= i < payload.len() && payload[i] == 0x7b && forall|j: int|
                0 <= j < i ==> payload[j] != 0x7b
    } else {
        1
    }
}

/// The JSON part of a status reply: everything from the first `{` (or from the
/// second byte when there is none), provided the packet id is 0.
pub fn status_json(payload: &Vec<u8>) -> (r: Option<Vec<u8>>)
    ensures
        match r {
            Some(j) => payload.len() > 0 && payload[0] == 0 && j@ == payload@.skip(
                json_start(payload@),
            ),
            None => !(payload.len() > 0 && payload[0] == 0),
        },
{
    if payload.len() == 0 || payload[0] != 0 {
        return None;
    }
    let mut start: usize = 0;
    while start < payload.len() && payload[start] != 0x7b
        invariant
            start <= payload.len(),
            forall|j: int| 0 <= j < start ==> payload@[j] != 0x7b,
        decreases payload.len() - start,
    {
        start = start + 1;
    }
    proof {
        if start < payload.len() {
            let c = choose|i: int|
                0 <= i < payload@.len() && payload@[i] == 0x7b && forall|j: int|
                    0 <= j < i ==> payload@[j] != 0x7b;
            assert(payload@[start as int] == 0x7b);
            if c < start {
            } else if c > start {
                assert(payload@[start as int] != 0x7b);
            }
            assert(json_start(payload@) == start);
        } else {
            assert(json_start(payload@) == 1);
        }
    }
    if start == payload.len() {
        start = 1;
    }
    let mut out: Vec<u8> = Vec::new();
    let mut i = start;
    while i < payload.len()
        invariant
            start <= i <= payload.len(),
            out@ == payload@.subrange(start as int, i as int),
        decreases payload.len() - i,
    {
        out.push(payload[i]);
        i = i + 1;
    }
    Some(out)
}

/// A count from the status reply, negatives read as zero.
pub open spec fn non_negative(x: i32) -> u32 {
    if x < 0 {
        0
    } else {
        x as u32
    }
}

/// The answer of a server that replied after `latency_ms`, with the players it
/// reported (none when its reply was not a status object).
pub fn ping_result(latency_ms: u32, status: Option<StatusResponse>) -> (r: PingResult)
    ensures
        r.online,
        r.latency_ms == latency_ms,
        match status {
            Some(StatusResponse { players: Some(p) }) => r.players_online == non_negative(
                p.online,
            ) && r.players_max == non_negative(p.max),
            _ => r.players_online == 0 && r.players_max == 0,
        },
{
    let mut result = PingResult { online: true, players_online: 0, players_max: 0, latency_ms };
    if let Some(status) = status {
        if let Some(players) = status.players {
            result.players_online = if players.online < 0 {
                0
            } else {
                players.online as u32
            };
            result.players_max = if players.max < 0 {
                0
            } else {
                players.max as u32
            };
        }
    }
    result
}

/// Milliseconds elapsed, capped at `u32::MAX`.
pub fn latency_millis(elapsed_ms: u128) -> (r: u32)
    ensures
        r == (if elapsed_ms > u32::MAX {
            u32::MAX as u128
        } else {
            elapsed_ms
        }),
{
    if elapsed_ms > 0xffff_ffff {
        0xffff_ffff
    } else {
        elapsed_ms as u32
    }
}

} // verus!

//! The record at the front of every benchmark message.
use vstd::prelude::*;
use crate::clock::wall_clock_micros;

verus! {

/// The `n` lowest bytes of `x`, the lowest first.
pub open spec fn le_bytes(x: nat, n: nat) -> Seq<u8>
    decreases n,
{
    if n == 0 {
        Seq::empty()
    } else {
        seq![(x % 256) as u8] + le_bytes(x / 256, (n - 1) as nat)
    }
}

/// The number that bytes stand for, the lowest first.
pub open spec fn le_value(b: Seq<u8>) -> nat
    decreases b.len(),
{
    if b.len() == 0 {
        0
    } else {
        b[0] as nat + 256 * le_value(b.drop_first())
    }
}

/// 256^n.
pub open spec fn pow256(n: nat) -> nat
    decreases n,
{
    if n == 0 {
        1
    } else {
        256 * pow256((n - 1) as nat)
    }
}

/// A number of `n` bytes is read back from its bytes.
pub proof fn lemma_le_bytes_value(x: nat, n: nat)
    requires
        x < pow256(n),
    ensures
        le_bytes(x, n).len() == n,
        le_value(le_bytes(x, n)) == x,
    decreases n,
{
    if n > 0 {
        lemma_le_bytes_value(x / 256, (n - 1) as nat);
        assert(le_bytes(x, n).drop_first() =~= le_bytes(x / 256, (n - 1) as nat));
    }
}

/// Bytes are the bytes of the number that they stand for.
pub proof fn lemma_le_value_bytes(b: Seq<u8>)
    ensures
        le_bytes(le_value(b), b.len()) == b,
        le_value(b) < pow256(b.len()),
    decreases b.len(),
{
    if b.len() > 0 {
        lemma_le_value_bytes(b.drop_first());
        assert(le_bytes(le_value(b), b.len()) =~= b);
    } else {
        assert(le_bytes(le_value(b), b.len()) =~= b);
    }
}

/// The bytes of a number have the length asked for.
proof fn lemma_le_bytes_len(x: nat, n: nat)
    ensures
        le_bytes(x, n).len() == n,
    decreases n,
{
    if n > 0 {
        lemma_le_bytes_len(x / 256, (n - 1) as nat);
    }
}

/// A longer run of bytes counts its last byte by its place.
proof fn lemma_le_value_push(b: Seq<u8>, x: u8)
    ensures
        le_value(b.push(x)) == le_value(b) + x as nat * pow256(b.len()),
    decreases b.len(),
{
    reveal_with_fuel(le_value, 2);
    if b.len() == 0 {
        assert(b.push(x).drop_first() =~= Seq::<u8>::empty());
        assert(x as nat * pow256(0) == x as nat) by (nonlinear_arith)
            requires
                pow256(0) == 1,
        ;
    } else {
        assert(b.push(x).drop_first() =~= b.drop_first().push(x));
        lemma_le_value_push(b.drop_first(), x);
        let p = pow256((b.len() - 1) as nat);
        assert(256 * (x as nat * p) == x as nat * (256 * p)) by (nonlinear_arith);
    }
}

/// 256^n grows with n.
proof fn lemma_pow256_grows(a: nat, b: nat)
    requires
        a <= b,
    ensures
        0 < pow256(a) <= pow256(b),
    decreases b,
{
    if a < b {
        lemma_pow256_grows(a, (b - 1) as nat);
    } else if a > 0 {
        lemma_pow256_grows((a - 1) as nat, (a - 1) as nat);
    }
}

/// The sizes of the two integer types that a payload holds.
pub proof fn lemma_pow256_sizes()
    ensures
        pow256(4) == 0x1_0000_0000,
        pow256(8) == 0x1_0000_0000_0000_0000,
{
    reveal_with_fuel(pow256, 9);
}

/// Reads `n` bytes from position `at`, the lowest first.
fn read_le(buf: &[u8], at: usize, n: usize) -> (x: u64)
    requires
        at + n <= buf@.len(),
        n <= 8,
    ensures
        x == le_value(buf@.subrange(at as int, at + n)),
        x < pow256(n as nat),
{
    let len: usize = buf.len();
    let mut x: u64 = 0;
    let mut place: u64 = 1;
    let mut i: usize = 0;
    proof {
        assert(buf@.subrange(at as int, at as int) =~= Seq::<u8>::empty());
    }
    while i < n
        invariant
            at + n <= len == buf@.len(),
            i <= n <= 8,
            x == le_value(buf@.subrange(at as int, at + i)),
            x < pow256(i as nat),
            i < 8 ==> place == pow256(i as nat),
        decreases n - i,
    {
        let b: u8 = buf[at + i];
        proof {
            let now = buf@.subrange(at as int, at + i);
            assert(buf@.subrange(at as int, at + i + 1) =~= now.push(b));
            lemma_le_value_push(now, b);
            lemma_pow256_sizes();
            lemma_pow256_grows((i + 1) as nat, 8);
            assert(x + b * place < 256 * place) by (nonlinear_arith)
                requires
                    x < place,
                    b <= 255,
            ;
            assert(b * place == b as nat * pow256(i as nat));
            assert(0 <= b * place <= u64::MAX);
        }
        x = x + b as u64 * place;
        if i < 7 {
            proof {
                lemma_pow256_grows((i + 1) as nat, 7);
                reveal_with_fuel(pow256, 9);
            }
            place = place * 256;
        }
        i = i + 1;
    }
    x
}

/// Writes the `n` lowest bytes of `x` at position `at`, the lowest first.
fn write_le(buf: &mut [u8; 24], at: usize, x: u64, n: usize)
    requires
        at + n <= 24,
    ensures
        final(buf)@ == old(buf)@.subrange(0, at as int) + le_bytes(x as nat, n as nat)
            + old(buf)@.subrange(at + n, 24),
    decreases n,
{
    let ghost before = buf@;
    if n > 0 {
        buf[at] = (x % 256) as u8;
        let ghost first = buf@;
        write_le(buf, at + 1, x / 256, n - 1);
        proof {
            lemma_le_bytes_len(x as nat, n as nat);
            assert(first.subrange(0, at + 1) =~= before.subrange(0, at as int) + seq![
                (x % 256) as u8,
            ]);
            assert(first.subrange(at + n, 24) =~= before.subrange(at + n, 24));
            assert(buf@ =~= before.subrange(0, at as int) + le_bytes(x as nat, n as nat)
                + before.subrange(at + n, 24));
        }
    } else {
        assert(buf@ =~= before.subrange(0, at as int) + le_bytes(x as nat, n as nat)
            + before.subrange(at + n, 24));
    }
}

/// Reads the first eight bytes as a number, the lowest first.
pub fn read_u64(buf: &[u8]) -> (x: u64)
    requires
        buf@.len() >= 8,
    ensures
        x == le_value(buf@.subrange(0, 8)),
{
    read_le(buf, 0, 8)
}

/// Message payload structure for diagnostic tracking.
#[derive(Clone, Copy, Debug, PartialEq, Eq, Structural)]
pub struct DiagnosticPayload {
    pub timestamp_us: u64,
    pub producer_id: u32,
    pub partition_id: u32,
    pub sequence: u64,
}

/// The bytes of a payload: its fields in order, each with its lowest byte first.
pub open spec fn encoding(p: DiagnosticPayload) -> Seq<u8> {
    le_bytes(p.timestamp_us as nat, 8) + le_bytes(p.producer_id as nat, 4) + le_bytes(
        p.partition_id as nat,
        4,
    ) + le_bytes(p.sequence as nat, 8)
}

/// The payload at the front of `buf`, where there are enough bytes.
pub open spec fn decoding(buf: Seq<u8>) -> Option<DiagnosticPayload> {
    if buf.len() < 24 {
        None
    } else {
        Some(
            DiagnosticPayload {
                timestamp_us: le_value(buf.subrange(0, 8)) as u64,
                producer_id: le_value(buf.subrange(8, 12)) as u32,
                partition_id: le_value(buf.subrange(12, 16)) as u32,
                sequence: le_value(buf.subrange(16, 24)) as u64,
            },
        )
    }
}

impl DiagnosticPayload {
    /// The number of bytes of an encoded payload.
    pub const SIZE: usize = 24;

    /// A payload that carries the present time.
    pub fn new(producer_id: u32, partition_id: u32, sequence: u64) -> (p: DiagnosticPayload)
        ensures
            p.producer_id == producer_id,
            p.partition_id == partition_id,
            p.sequence == sequence,
    {
        Self::stamped(wall_clock_micros(), producer_id, partition_id, sequence)
    }

    /// A payload that carries the given time.
    pub fn stamped(
        timestamp_us: u64,
        producer_id: u32,
        partition_id: u32,
        sequence: u64,
    ) -> (p: DiagnosticPayload)
        ensures
            p == (DiagnosticPayload { timestamp_us, producer_id, partition_id, sequence }),
    {
        DiagnosticPayload { timestamp_us, producer_id, partition_id, sequence }
    }

    /// The encoded payload.
    pub fn to_bytes(self) -> (b: [u8; 24])
        ensures
            b@ == encoding(self),
    {
        let mut buf: [u8; 24] = [0u8;24];
        write_le(&mut buf, 0, self.timestamp_us, 8);
        write_le(&mut buf, 8, self.producer_id as u64, 4);
        write_le(&mut buf, 12, self.partition_id as u64, 4);
        write_le(&mut buf, 16, self.sequence, 8);
        proof {
            lemma_le_bytes_len(self.timestamp_us as nat, 8);
            lemma_le_bytes_len(self.producer_id as nat, 4);
            lemma_le_bytes_len(self.partition_id as nat, 4);
            lemma_le_bytes_len(self.sequence as nat, 8);
            assert(buf@ =~= encoding(self));
        }
        buf
    }

    /// Reads the payload at the front of a message; `None` where the message is too short.
    pub fn from_bytes(buf: &[u8]) -> (r: Option<DiagnosticPayload>)
        ensures
            r == decoding(buf@),
    {
        if buf.len() < Self::SIZE {
            return None;
        }
        proof {
            lemma_pow256_sizes();
        }
        Some(
            DiagnosticPayload {
                timestamp_us: read_le(buf, 0, 8),
                producer_id: read_le(buf, 8, 4) as u32,
                partition_id: read_le(buf, 12, 4) as u32,
                sequence: read_le(buf, 16, 8),
            },
        )
    }
}

/// An encoded payload has its size.
pub proof fn lemma_encoding_len(p: DiagnosticPayload)
    ensures
        encoding(p).len() == 24,
{
    lemma_le_bytes_len(p.timestamp_us as nat, 8);
    lemma_le_bytes_len(p.producer_id as nat, 4);
    lemma_le_bytes_len(p.partition_id as nat, 4);
    lemma_le_bytes_len(p.sequence as nat, 8);
}

/// A payload is read back from its bytes, whatever follows them.
pub proof fn law_decoding_inverts_encoding(p: DiagnosticPayload, tail: Seq<u8>)
    ensures
        encoding(p).len() == 24,
        decoding(encoding(p) + tail) == Some(p),
{
    lemma_pow256_sizes();
    lemma_le_bytes_value(p.timestamp_us as nat, 8);
    lemma_le_bytes_value(p.producer_id as nat, 4);
    lemma_le_bytes_value(p.partition_id as nat, 4);
    lemma_le_bytes_value(p.sequence as nat, 8);
    let buf = encoding(p) + tail;
    assert(buf.subrange(0, 8) =~= le_bytes(p.timestamp_us as nat, 8));
    assert(buf.subrange(8, 12) =~= le_bytes(p.producer_id as nat, 4));
    assert(buf.subrange(12, 16) =~= le_bytes(p.partition_id as nat, 4));
    assert(buf.subrange(16, 24) =~= le_bytes(p.sequence as nat, 8));
}

/// The first bytes of a message are the encoding of the payload that is read from it.
pub proof fn law_encoding_inverts_decoding(buf: Seq<u8>)
    requires
        buf.len() >= 24,
    ensures
        decoding(buf) is Some,
        encoding(decoding(buf)->Some_0) == buf.subrange(0, 24),
{
    lemma_pow256_sizes();
    lemma_le_value_bytes(buf.subrange(0, 8));
    lemma_le_value_bytes(buf.subrange(8, 12));
    lemma_le_value_bytes(buf.subrange(12, 16));
    lemma_le_value_bytes(buf.subrange(16, 24));
    assert(encoding(decoding(buf)->Some_0) =~= buf.subrange(0, 24));
}

/// Eight bytes stand for the sum of their values, each by its place, the lowest first.
pub proof fn law_eight_bytes_add_up(b: Seq<u8>)
    requires
        b.len() == 8,
    ensures
        le_value(b) == b[0] + 0x100 * b[1] + 0x1_0000 * b[2] + 0x100_0000 * b[3] + 0x1_0000_0000
            * b[4] + 0x100_0000_0000 * b[5] + 0x1_0000_0000_0000 * b[6] + 0x100_0000_0000_0000
            * b[7],
{
    reveal_with_fuel(le_value, 9);
    assert(b.drop_first() =~= b.subrange(1, 8));
    assert(b.drop_first().drop_first() =~= b.subrange(2, 8));
    assert(b.subrange(2, 8).drop_first() =~= b.subrange(3, 8));
    assert(b.subrange(3, 8).drop_first() =~= b.subrange(4, 8));
    assert(b.subrange(4, 8).drop_first() =~= b.subrange(5, 8));
    assert(b.subrange(5, 8).drop_first() =~= b.subrange(6, 8));
    assert(b.subrange(6, 8).drop_first() =~= b.subrange(7, 8));
    assert(b.subrange(7, 8).drop_first() =~= Seq::<u8>::empty());
}

/// Four bytes stand for the sum of their values, each by its place, the lowest first.
pub proof fn law_four_bytes_add_up(b: Seq<u8>)
    requires
        b.len() == 4,
    ensures
        le_value(b) == b[0] + 0x100 * b[1] + 0x1_0000 * b[2] + 0x100_0000 * b[3],
{
    reveal_with_fuel(le_value, 5);
    assert(b.drop_first() =~= b.subrange(1, 4));
    assert(b.subrange(1, 4).drop_first() =~= b.subrange(2, 4));
    assert(b.subrange(2, 4).drop_first() =~= b.subrange(3, 4));
    assert(b.subrange(3, 4).drop_first() =~= Seq::<u8>::empty());
}

/// The fields of a payload lie one behind the other in its bytes, each with its lowest byte first.
pub proof fn law_payload_layout(buf: Seq<u8>)
    ensures
        buf.len() < 24 ==> decoding(buf) is None,
        buf.len() >= 24 ==> {
            let p = decoding(buf)->Some_0;
            &&& decoding(buf) is Some
            &&& p.timestamp_us == buf[0] + 0x100 * buf[1] + 0x1_0000 * buf[2] + 0x100_0000 * buf[3]
                + 0x1_0000_0000 * buf[4] + 0x100_0000_0000 * buf[5] + 0x1_0000_0000_0000 * buf[6]
                + 0x100_0000_0000_0000 * buf[7]
            &&& p.producer_id == buf[8] + 0x100 * buf[9] + 0x1_0000 * buf[10] + 0x100_0000 * buf[11]
            &&& p.partition_id == buf[12] + 0x100 * buf[13] + 0x1_0000 * buf[14] + 0x100_0000
                * buf[15]
            &&& p.sequence == buf[16] + 0x100 * buf[17] + 0x1_0000 * buf[18] + 0x100_0000 * buf[19]
                + 0x1_0000_0000 * buf[20] + 0x100_0000_0000 * buf[21] + 0x1_0000_0000_0000
                * buf[22] + 0x100_0000_0000_0000 * buf[23]
        },
{
    if buf.len() >= 24 {
        law_eight_bytes_add_up(buf.subrange(0, 8));
        law_four_bytes_add_up(buf.subrange(8, 12));
        law_four_bytes_add_up(buf.subrange(12, 16));
        law_eight_bytes_add_up(buf.subrange(16, 24));
    }
}

} // verus!

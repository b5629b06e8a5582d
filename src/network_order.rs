//! The codec traits and the big-endian codecs of the primitive integers.
//!
//! Every wire type states its encoding as a spec function `wire` and its
//! decoding as a spec function `parse` over the whole message and a start
//! position; aggregates describe themselves as the concatenation of their
//! fields, in order.
use vstd::prelude::*;
use vstd::array::ArrayAdditionalExecFns;
use crate::error::{DNSError, DNSResult};

verus! {

/// Types that can be written to a growing network-order buffer.
pub trait ToNetworkOrder {
    /// Whether the value respects the limits of its wire form.
    spec fn encodable(&self) -> bool;

    /// The octets that stand for the value on the wire.
    spec fn wire(&self) -> Seq<u8>;

    /// Appends the wire form of `self` and returns the number of octets written.
    fn to_network_bytes(&self, buffer: &mut Vec<u8>) -> (r: usize)
        requires
            self.encodable(),
            old(buffer)@.len() + self.wire().len() <= usize::MAX,
        ensures
            final(buffer)@ == old(buffer)@ + self.wire(),
            r == self.wire().len(),
    ;
}

/// Types that can be read from a message at a given position.
pub trait FromNetworkOrder: View + Sized {
    /// What decoding at `pos` of `buf` gives: the value and the position just
    /// past it, or the error met.
    spec fn parse(buf: Seq<u8>, pos: int) -> Result<(Self::V, int), DNSError>;

    /// Replaces `self` by the value read at `pos` of `buffer` and returns the
    /// position just past it.
    fn from_network_bytes(&mut self, buffer: &[u8], pos: usize) -> (r: DNSResult<usize>)
        ensures
            match r {
                Ok(end) => Self::parse(buffer@, pos as int) == Ok::<(Self::V, int), DNSError>(
                    (final(self)@, end as int),
                ),
                Err(e) => Self::parse(buffer@, pos as int) == Err::<(Self::V, int), DNSError>(e),
            },
    ;
}

/// The two octets of `v`, most significant first.
pub open spec fn u16_wire(v: u16) -> Seq<u8> {
    seq![(v / 256) as u8, (v % 256) as u8]
}

/// The four octets of `v`, most significant first.
pub open spec fn u32_wire(v: u32) -> Seq<u8> {
    seq![(v / 0x100_0000) as u8, ((v / 0x1_0000) % 256) as u8, ((v / 256) % 256) as u8, (v % 256) as u8]
}

/// The integer of two octets read most significant first.
pub open spec fn be_u16(b0: u8, b1: u8) -> u16 {
    (b0 as int * 256 + b1 as int) as u16
}

/// The integer of four octets read most significant first.
pub open spec fn be_u32(b0: u8, b1: u8, b2: u8, b3: u8) -> u32 {
    (b0 as int * 0x100_0000 + b1 as int * 0x1_0000 + b2 as int * 256 + b3 as int) as u32
}

/// Decoding of an integer of `n` octets at `pos`: `ShortRead` unless they are all there.
pub open spec fn has_bytes(buf: Seq<u8>, pos: int, n: int) -> bool {
    0 <= pos && pos + n <= buf.len()
}

pub open spec fn parse_u8(buf: Seq<u8>, pos: int) -> Result<(u8, int), DNSError> {
    if has_bytes(buf, pos, 1) {
        Ok((buf[pos], pos + 1))
    } else {
        Err(DNSError::ShortRead)
    }
}

pub open spec fn parse_u16(buf: Seq<u8>, pos: int) -> Result<(u16, int), DNSError> {
    if has_bytes(buf, pos, 2) {
        Ok((be_u16(buf[pos], buf[pos + 1]), pos + 2))
    } else {
        Err(DNSError::ShortRead)
    }
}

pub open spec fn parse_u32(buf: Seq<u8>, pos: int) -> Result<(u32, int), DNSError> {
    if has_bytes(buf, pos, 4) {
        Ok((be_u32(buf[pos], buf[pos + 1], buf[pos + 2], buf[pos + 3]), pos + 4))
    } else {
        Err(DNSError::ShortRead)
    }
}

/// The bits of `v` in two's complement.
pub open spec fn i32_bits(v: i32) -> u32 {
    if v >= 0 {
        v as u32
    } else {
        (v + 0x1_0000_0000) as u32
    }
}

/// The `i32` whose two's complement bits are `x`.
pub open spec fn i32_of_bits(x: u32) -> i32 {
    if x < 0x8000_0000 {
        x as i32
    } else {
        (x - 0x1_0000_0000) as i32
    }
}

pub open spec fn parse_i32(buf: Seq<u8>, pos: int) -> Result<(i32, int), DNSError> {
    match parse_u32(buf, pos) {
        Ok((v, end)) => Ok((i32_of_bits(v), end)),
        Err(e) => Err(e),
    }
}

/// Reads the octet at `pos`.
pub fn read_u8(buffer: &[u8], pos: usize) -> (r: DNSResult<(u8, usize)>)
    ensures
        match r {
            Ok((v, end)) => parse_u8(buffer@, pos as int) == Ok::<(u8, int), DNSError>((v, end as int)),
            Err(e) => parse_u8(buffer@, pos as int) == Err::<(u8, int), DNSError>(e),
        },
{
    if pos < buffer.len() {
        Ok((buffer[pos], pos + 1))
    } else {
        Err(DNSError::ShortRead)
    }
}

/// Reads a big-endian `u16` at `pos`.
pub fn read_u16(buffer: &[u8], pos: usize) -> (r: DNSResult<(u16, usize)>)
    ensures
        match r {
            Ok((v, end)) => parse_u16(buffer@, pos as int) == Ok::<(u16, int), DNSError>((v, end as int)),
            Err(e) => parse_u16(buffer@, pos as int) == Err::<(u16, int), DNSError>(e),
        },
{
    if pos < buffer.len() && buffer.len() - pos >= 2 {
        let v: u16 = buffer[pos] as u16 * 256 + buffer[pos + 1] as u16;
        Ok((v, pos + 2))
    } else {
        Err(DNSError::ShortRead)
    }
}

/// Reads a big-endian `u32` at `pos`.
pub fn read_u32(buffer: &[u8], pos: usize) -> (r: DNSResult<(u32, usize)>)
    ensures
        match r {
            Ok((v, end)) => parse_u32(buffer@, pos as int) == Ok::<(u32, int), DNSError>((v, end as int)),
            Err(e) => parse_u32(buffer@, pos as int) == Err::<(u32, int), DNSError>(e),
        },
{
    if pos < buffer.len() && buffer.len() - pos >= 4 {
        let v: u32 = buffer[pos] as u32 * 0x100_0000 + buffer[pos + 1] as u32 * 0x1_0000
            + buffer[pos + 2] as u32 * 256 + buffer[pos + 3] as u32;
        Ok((v, pos + 4))
    } else {
        Err(DNSError::ShortRead)
    }
}

/// Appends the octet `v`.
pub fn write_u8(buffer: &mut Vec<u8>, v: u8)
    ensures
        final(buffer)@ == old(buffer)@ + seq![v],
{
    buffer.push(v);
}

/// Appends `v` most significant octet first.
pub fn write_u16(buffer: &mut Vec<u8>, v: u16)
    ensures
        final(buffer)@ == old(buffer)@ + u16_wire(v),
{
    buffer.push((v / 256) as u8);
    buffer.push((v % 256) as u8);
}

/// Appends `v` most significant octet first.
pub fn write_u32(buffer: &mut Vec<u8>, v: u32)
    ensures
        final(buffer)@ == old(buffer)@ + u32_wire(v),
{
    buffer.push((v / 0x100_0000) as u8);
    buffer.push(((v / 0x1_0000) % 256) as u8);
    buffer.push(((v / 256) % 256) as u8);
    buffer.push((v % 256) as u8);
}

impl ToNetworkOrder for u8 {
    open spec fn encodable(&self) -> bool {
        true
    }

    open spec fn wire(&self) -> Seq<u8> {
        seq![*self]
    }

    fn to_network_bytes(&self, buffer: &mut Vec<u8>) -> (r: usize) {
        write_u8(buffer, *self);
        1
    }
}

impl FromNetworkOrder for u8 {
    open spec fn parse(buf: Seq<u8>, pos: int) -> Result<(u8, int), DNSError> {
        parse_u8(buf, pos)
    }

    fn from_network_bytes(&mut self, buffer: &[u8], pos: usize) -> (r: DNSResult<usize>) {
        let (v, end) = read_u8(buffer, pos)?;
        *self = v;
        Ok(end)
    }
}

impl ToNetworkOrder for u16 {
    open spec fn encodable(&self) -> bool {
        true
    }

    open spec fn wire(&self) -> Seq<u8> {
        u16_wire(*self)
    }

    fn to_network_bytes(&self, buffer: &mut Vec<u8>) -> (r: usize) {
        write_u16(buffer, *self);
        2
    }
}

impl FromNetworkOrder for u16 {
    open spec fn parse(buf: Seq<u8>, pos: int) -> Result<(u16, int), DNSError> {
        parse_u16(buf, pos)
    }

    fn from_network_bytes(&mut self, buffer: &[u8], pos: usize) -> (r: DNSResult<usize>) {
        let (v, end) = read_u16(buffer, pos)?;
        *self = v;
        Ok(end)
    }
}

impl ToNetworkOrder for u32 {
    open spec fn encodable(&self) -> bool {
        true
    }

    open spec fn wire(&self) -> Seq<u8> {
        u32_wire(*self)
    }

    fn to_network_bytes(&self, buffer: &mut Vec<u8>) -> (r: usize) {
        write_u32(buffer, *self);
        4
    }
}

impl FromNetworkOrder for u32 {
    open spec fn parse(buf: Seq<u8>, pos: int) -> Result<(u32, int), DNSError> {
        parse_u32(buf, pos)
    }

    fn from_network_bytes(&mut self, buffer: &[u8], pos: usize) -> (r: DNSResult<usize>) {
        let (v, end) = read_u32(buffer, pos)?;
        *self = v;
        Ok(end)
    }
}

impl ToNetworkOrder for i32 {
    open spec fn encodable(&self) -> bool {
        true
    }

    /// Two's complement, as the `u32` of the same bits.
    open spec fn wire(&self) -> Seq<u8> {
        u32_wire(i32_bits(*self))
    }

    fn to_network_bytes(&self, buffer: &mut Vec<u8>) -> (r: usize) {
        let v = *self;
        let bits: u32 = if v >= 0 {
            v as u32
        } else {
            u32::MAX - ((-(v + 1)) as u32)
        };
        write_u32(buffer, bits);
        4
    }
}

impl FromNetworkOrder for i32 {
    open spec fn parse(buf: Seq<u8>, pos: int) -> Result<(i32, int), DNSError> {
        parse_i32(buf, pos)
    }

    fn from_network_bytes(&mut self, buffer: &[u8], pos: usize) -> (r: DNSResult<usize>) {
        let (x, end) = read_u32(buffer, pos)?;
        *self = if x < 0x8000_0000 {
            x as i32
        } else {
            -((u32::MAX - x) as i32) - 1
        };
        Ok(end)
    }
}

/// The wire forms of the items of `s`, one after the other.
pub open spec fn seq_wire<T: ToNetworkOrder>(s: Seq<T>) -> Seq<u8>
    decreases s.len(),
{
    if s.len() == 0 {
        seq![]
    } else {
        s[0].wire() + seq_wire(s.drop_first())
    }
}

pub proof fn lemma_seq_wire_append<T: ToNetworkOrder>(a: Seq<T>, b: Seq<T>)
    ensures
        seq_wire(a + b) == seq_wire(a) + seq_wire(b),
    decreases a.len(),
{
    if a.len() == 0 {
        assert(a + b == b);
        assert(Seq::<u8>::empty() + seq_wire(b) == seq_wire(b));
    } else {
        assert((a + b).drop_first() == a.drop_first() + b);
        assert((a + b)[0] == a[0]);
        lemma_seq_wire_append(a.drop_first(), b);
    }
}

/// A sequence is written item after item, in order.
impl<T: ToNetworkOrder> ToNetworkOrder for Vec<T> {
    open spec fn encodable(&self) -> bool {
        forall|i: int| 0 <= i < self@.len() ==> (#[trigger] self@[i]).encodable()
    }

    open spec fn wire(&self) -> Seq<u8> {
        seq_wire(self@)
    }

    fn to_network_bytes(&self, buffer: &mut Vec<u8>) -> (r: usize) {
        let ghost start = buffer@;
        let ghost sv = self@;
        let mut i: usize = 0;
        let mut length: usize = 0;
        proof {
            assert(sv.subrange(0, 0) == Seq::<T>::empty());
            assert(sv.subrange(0, sv.len() as int) == sv);
            assert(start + Seq::<u8>::empty() == start);
            assert(Seq::<u8>::empty() + seq_wire(sv) == seq_wire(sv));
        }
        while i < self.len()
            invariant
                sv == self@,
                forall|i: int| 0 <= i < sv.len() ==> (#[trigger] sv[i]).encodable(),
                i <= sv.len(),
                buffer@ == start + seq_wire(sv.subrange(0, i as int)),
                length == seq_wire(sv.subrange(0, i as int)).len(),
                start.len() + seq_wire(sv).len() <= usize::MAX,
                seq_wire(sv) == seq_wire(sv.subrange(0, i as int)) + seq_wire(sv.subrange(i as int, sv.len() as int)),
            decreases sv.len() - i,
        {
            let ghost d = sv[i as int];
            proof {
                assert(sv.subrange(i as int, sv.len() as int) == seq![d] + sv.subrange(i + 1, sv.len() as int));
                lemma_seq_wire_append(seq![d], sv.subrange(i + 1, sv.len() as int));
                assert(seq![d].drop_first() == Seq::<T>::empty());
                assert(seq![d][0] == d);
                assert(seq_wire(Seq::<T>::empty()) == Seq::<u8>::empty());
                assert(seq_wire(seq![d]) == seq![d][0].wire() + seq_wire(seq![d].drop_first()));
                assert(seq_wire(seq![d]) == d.wire() + Seq::<u8>::empty());
                assert(d.wire() + Seq::<u8>::empty() == d.wire());
                assert(sv.subrange(0, i + 1) == sv.subrange(0, i as int) + seq![d]);
                lemma_seq_wire_append(sv.subrange(0, i as int), seq![d]);
                assert(seq_wire(sv) == seq_wire(sv.subrange(0, i + 1)) + seq_wire(sv.subrange(i + 1, sv.len() as int)));
            }
            let n = self[i].to_network_bytes(buffer);
            length += n;
            i += 1;
        }
        assert(sv.subrange(0, i as int) == sv);
        length
    }
}

/// An absent value writes nothing; a present one writes its own wire form.
impl<T: ToNetworkOrder> ToNetworkOrder for Option<T> {
    open spec fn encodable(&self) -> bool {
        match self {
            Some(v) => v.encodable(),
            None => true,
        }
    }

    open spec fn wire(&self) -> Seq<u8> {
        match self {
            Some(v) => v.wire(),
            None => Seq::<u8>::empty(),
        }
    }

    fn to_network_bytes(&self, buffer: &mut Vec<u8>) -> (r: usize) {
        match self {
            Some(v) => v.to_network_bytes(buffer),
            None => {
                assert(buffer@ == buffer@ + Seq::<u8>::empty());
                0
            },
        }
    }
}

/// A fixed-size run of octets is written as it is.
impl<const N: usize> ToNetworkOrder for [u8; N] {
    open spec fn encodable(&self) -> bool {
        true
    }

    open spec fn wire(&self) -> Seq<u8> {
        self@
    }

    fn to_network_bytes(&self, buffer: &mut Vec<u8>) -> (r: usize) {
        let ghost start = buffer@;
        let mut i: usize = 0;
        while i < N
            invariant
                self@.len() == N,
                i <= N,
                buffer@ == start + self@.subrange(0, i as int),
            decreases N - i,
        {
            buffer.push(self[i]);
            proof {
                assert(self@.subrange(0, i + 1) == self@.subrange(0, i as int).push(self@[i as int]));
            }
            i += 1;
        }
        assert(self@.subrange(0, N as int) == self@);
        N
    }
}

/// A fixed-size run of octets is read as the next `N` octets.
impl<const N: usize> FromNetworkOrder for [u8; N] {
    open spec fn parse(buf: Seq<u8>, pos: int) -> Result<(Seq<u8>, int), DNSError> {
        if has_bytes(buf, pos, N as int) {
            Ok((buf.subrange(pos, pos + N), pos + N))
        } else {
            Err(DNSError::ShortRead)
        }
    }

    fn from_network_bytes(&mut self, buffer: &[u8], pos: usize) -> (r: DNSResult<usize>) {
        if pos > buffer.len() || buffer.len() - pos < N {
            return Err(DNSError::ShortRead);
        }
        let mut i: usize = 0;
        while i < N
            invariant
                self@.len() == N,
                i <= N,
                pos as int + N as int <= buffer.len(),
                forall|k: int| 0 <= k < i ==> self@[k] == buffer@[pos + k],
            decreases N - i,
        {
            self.set(i, buffer[pos + i]);
            i += 1;
        }
        assert(self@ == buffer@.subrange(pos as int, pos + N));
        Ok(pos + N)
    }
}

/// Decoding the two octets of any `u16` gives it back.
pub proof fn lemma_u16_round_trip(v: u16, prefix: Seq<u8>, suffix: Seq<u8>)
    ensures
        parse_u16(prefix + u16_wire(v) + suffix, prefix.len() as int) == Ok::<(u16, int), DNSError>(
            (v, prefix.len() as int + 2),
        ),
{
    let buf = prefix + u16_wire(v) + suffix;
    assert(buf[prefix.len() as int] == (v / 256) as u8);
    assert(buf[prefix.len() as int + 1] == (v % 256) as u8);
}

/// Decoding the four octets of any `u32` gives it back.
pub proof fn lemma_u32_round_trip(v: u32, prefix: Seq<u8>, suffix: Seq<u8>)
    ensures
        parse_u32(prefix + u32_wire(v) + suffix, prefix.len() as int) == Ok::<(u32, int), DNSError>(
            (v, prefix.len() as int + 4),
        ),
{
    let buf = prefix + u32_wire(v) + suffix;
    let p = prefix.len() as int;
    assert(buf[p] == (v / 0x100_0000) as u8);
    assert(buf[p + 1] == ((v / 0x1_0000) % 256) as u8);
    assert(buf[p + 2] == ((v / 256) % 256) as u8);
    assert(buf[p + 3] == (v % 256) as u8);
}

/// Decoding the four octets of any `i32` gives it back.
pub proof fn lemma_i32_round_trip(v: i32, prefix: Seq<u8>, suffix: Seq<u8>)
    ensures
        parse_i32(prefix + u32_wire(i32_bits(v)) + suffix, prefix.len() as int) == Ok::<(i32, int), DNSError>(
            (v, prefix.len() as int + 4),
        ),
{
    lemma_u32_round_trip(i32_bits(v), prefix, suffix);
}

/// Decoding any fixed-size run of octets gives it back.
pub proof fn lemma_bytes_round_trip<const N: usize>(a: [u8; N], prefix: Seq<u8>, suffix: Seq<u8>)
    ensures
        <[u8; N] as FromNetworkOrder>::parse(prefix + a@ + suffix, prefix.len() as int)
            == Ok::<(Seq<u8>, int), DNSError>((a@, prefix.len() + N)),
{
    assert((prefix + a@ + suffix).subrange(prefix.len() as int, prefix.len() + N) == a@);
}

/// Decoding the octet of any `u8` gives it back.
pub proof fn lemma_u8_round_trip(v: u8, prefix: Seq<u8>, suffix: Seq<u8>)
    ensures
        parse_u8(prefix + seq![v] + suffix, prefix.len() as int) == Ok::<(u8, int), DNSError>(
            (v, prefix.len() as int + 1),
        ),
{
    let buf = prefix + seq![v] + suffix;
    assert(buf[prefix.len() as int] == v);
}

} // verus!

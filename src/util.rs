//! Small helpers on octets.
use vstd::prelude::*;
use vstd::string::StringSliceAdditionalSpecFns;
use crate::name::DOT;

verus! {

/// Whether a length octet announces a compression pointer: its top two bits are `11`.
pub fn is_pointer(x: u8) -> (r: bool)
    ensures
        r == (x >= 192),
{
    x >= 192
}

/// The length octet and the octets of one dot-separated field; the length is
/// taken modulo 256.
pub open spec fn field_wire(f: Seq<u8>) -> Seq<u8> {
    seq![(f.len() % 256) as u8] + f
}

/// Each dot-separated field of `s` written as a label, empty fields included;
/// `cur` holds the field being read. The terminating zero is not included.
pub open spec fn fields_wire(s: Seq<u8>, cur: Seq<u8>) -> Seq<u8>
    decreases s.len(),
{
    if s.len() == 0 {
        field_wire(cur)
    } else if s[0] == DOT {
        field_wire(cur) + fields_wire(s.drop_first(), seq![])
    } else {
        fields_wire(s.drop_first(), cur.push(s[0]))
    }
}

/// Writes `domain` as labels: each dot-separated field as its length octet and
/// its octets, then a zero octet. Empty fields are written as zero-length labels.
pub fn to_domain(domain: &str) -> (r: Vec<u8>)
    ensures
        r@ == fields_wire(domain.spec_bytes(), seq![]) + seq![0u8],
{
    let bytes = domain.as_bytes();
    let ghost s = bytes@;
    let n = bytes.len();
    let mut v: Vec<u8> = Vec::new();
    let mut start: usize = 0;
    let mut i: usize = 0;
    proof {
        assert(s.subrange(0, n as int) == s);
        assert(s.subrange(0, 0) == Seq::<u8>::empty());
        assert(Seq::<u8>::empty() + fields_wire(s, seq![]) == fields_wire(s, seq![]));
    }
    while i < n
        invariant
            s == bytes@,
            n == s.len(),
            start <= i <= n,
            v@ + fields_wire(s.subrange(i as int, n as int), s.subrange(start as int, i as int))
                == fields_wire(s, seq![]),
        decreases n - i,
    {
        proof {
            let rest = s.subrange(i as int, n as int);
            assert(rest.drop_first() == s.subrange(i + 1, n as int));
            assert(rest[0] == s[i as int]);
            assert(s.subrange(start as int, i as int).push(s[i as int]) == s.subrange(start as int, i + 1));
            assert(s.subrange(i + 1, i + 1) == Seq::<u8>::empty());
        }
        if bytes[i] == DOT {
            let ghost before = v@;
            v.push(((i - start) % 256) as u8);
            crate::name::write_bytes(&mut v, vstd::slice::slice_subrange(bytes, start, i));
            proof {
                let f = s.subrange(start as int, i as int);
                assert(v@ == before + field_wire(f));
                assert(before + (field_wire(f) + fields_wire(s.subrange(i + 1, n as int), seq![]))
                    == v@ + fields_wire(s.subrange(i + 1, n as int), seq![]));
            }
            start = i + 1;
        }
        i += 1;
    }
    let ghost before = v@;
    v.push(((i - start) % 256) as u8);
    crate::name::write_bytes(&mut v, vstd::slice::slice_subrange(bytes, start, i));
    proof {
        assert(s.subrange(i as int, n as int) == Seq::<u8>::empty());
        assert(v@ == before + field_wire(s.subrange(start as int, i as int)));
    }
    v.push(0);
    v
}

/// Whether `b` is ASCII whitespace: space, tab, line feed, form feed or carriage return.
pub open spec fn is_ascii_space(b: u8) -> bool {
    b == 0x20 || b == 0x09 || b == 0x0a || b == 0x0c || b == 0x0d
}

/// The value of an ASCII hexadecimal digit, either case.
pub open spec fn hex_value(b: u8) -> Option<u8> {
    if 0x30 <= b <= 0x39 {
        Some((b - 0x30) as u8)
    } else if 0x41 <= b <= 0x46 {
        Some((b - 0x41 + 10) as u8)
    } else if 0x61 <= b <= 0x66 {
        Some((b - 0x61 + 10) as u8)
    } else {
        None
    }
}

/// Whether a two-octet token is two hexadecimal digits; other tokens are skipped.
pub open spec fn token_ok(t: Seq<u8>) -> bool {
    t.len() == 2 ==> (hex_value(t[0]) is Some && hex_value(t[1]) is Some)
}

/// The octet that a token stands for, if it is a two-digit one.
pub open spec fn token_bytes(t: Seq<u8>) -> Seq<u8> {
    if t.len() == 2 && hex_value(t[0]) is Some && hex_value(t[1]) is Some {
        seq![(hex_value(t[0])->Some_0 * 16 + hex_value(t[1])->Some_0) as u8]
    } else {
        seq![]
    }
}

/// The octets of the two-digit tokens of `s`, in order; `cur` is the token being read.
pub open spec fn sample_bytes(s: Seq<u8>, cur: Seq<u8>) -> Seq<u8>
    decreases s.len(),
{
    if s.len() == 0 {
        token_bytes(cur)
    } else if is_ascii_space(s[0]) {
        token_bytes(cur) + sample_bytes(s.drop_first(), seq![])
    } else {
        sample_bytes(s.drop_first(), cur.push(s[0]))
    }
}

/// Whether every two-octet token of `s` is two hexadecimal digits.
pub open spec fn sample_ok(s: Seq<u8>, cur: Seq<u8>) -> bool
    decreases s.len(),
{
    if s.len() == 0 {
        token_ok(cur)
    } else if is_ascii_space(s[0]) {
        token_ok(cur) && sample_ok(s.drop_first(), seq![])
    } else {
        sample_ok(s.drop_first(), cur.push(s[0]))
    }
}

fn hex_digit(b: u8) -> (r: Option<u8>)
    ensures
        r == hex_value(b),
{
    if 0x30 <= b && b <= 0x39 {
        Some(b - 0x30)
    } else if 0x41 <= b && b <= 0x46 {
        Some(b - 0x41 + 10)
    } else if 0x61 <= b && b <= 0x66 {
        Some(b - 0x61 + 10)
    } else {
        None
    }
}

/// Appends the octet of the token `bytes[start..end]` when it has two digits.
fn push_token(v: &mut Vec<u8>, bytes: &[u8], start: usize, end: usize)
    requires
        start <= end <= bytes@.len(),
        token_ok(bytes@.subrange(start as int, end as int)),
    ensures
        final(v)@ == old(v)@ + token_bytes(bytes@.subrange(start as int, end as int)),
{
    let ghost t = bytes@.subrange(start as int, end as int);
    if end - start == 2 {
        assert(t[0] == bytes@[start as int] && t[1] == bytes@[start + 1]);
        let hi = hex_digit(bytes[start]);
        let lo = hex_digit(bytes[start + 1]);
        match (hi, lo) {
            (Some(h), Some(l)) => {
                v.push(h * 16 + l);
            },
            _ => {},
        }
    } else {
        assert(old(v)@ + Seq::<u8>::empty() == old(v)@);
    }
}

/// The octets of a hex dump: the tokens of exactly two characters between
/// ASCII whitespace, read as hexadecimal; longer tokens such as offsets are
/// skipped.
pub fn get_sample_slice(s: &str) -> (r: Vec<u8>)
    requires
        sample_ok(s.spec_bytes(), seq![]),
    ensures
        r@ == sample_bytes(s.spec_bytes(), seq![]),
{
    let bytes = s.as_bytes();
    let ghost t = bytes@;
    let n = bytes.len();
    let mut v: Vec<u8> = Vec::new();
    let mut start: usize = 0;
    let mut i: usize = 0;
    proof {
        assert(t.subrange(0, n as int) == t);
        assert(t.subrange(0, 0) == Seq::<u8>::empty());
        assert(Seq::<u8>::empty() + sample_bytes(t, seq![]) == sample_bytes(t, seq![]));
    }
    while i < n
        invariant
            t == bytes@,
            n == t.len(),
            start <= i <= n,
            sample_ok(t.subrange(i as int, n as int), t.subrange(start as int, i as int)),
            v@ + sample_bytes(t.subrange(i as int, n as int), t.subrange(start as int, i as int))
                == sample_bytes(t, seq![]),
        decreases n - i,
    {
        proof {
            let rest = t.subrange(i as int, n as int);
            assert(rest.drop_first() == t.subrange(i + 1, n as int));
            assert(rest[0] == t[i as int]);
            assert(t.subrange(start as int, i as int).push(t[i as int]) == t.subrange(start as int, i + 1));
            assert(t.subrange(i + 1, i + 1) == Seq::<u8>::empty());
        }
        let b = bytes[i];
        if b == 0x20 || b == 0x09 || b == 0x0a || b == 0x0c || b == 0x0d {
            let ghost before = v@;
            push_token(&mut v, bytes, start, i);
            proof {
                let tok = t.subrange(start as int, i as int);
                assert(before + (token_bytes(tok) + sample_bytes(t.subrange(i + 1, n as int), seq![]))
                    == v@ + sample_bytes(t.subrange(i + 1, n as int), seq![]));
            }
            start = i + 1;
        }
        i += 1;
    }
    proof {
        assert(t.subrange(i as int, n as int) == Seq::<u8>::empty());
    }
    push_token(&mut v, bytes, start, i);
    v
}

} // verus!

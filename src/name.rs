//! Character strings and domain names, with the decoding of compression pointers.
use vstd::prelude::*;
use vstd::string::StringSliceAdditionalSpecFns;
use vstd::utf8::{decode_utf8, valid_utf8};
use crate::error::{DNSError, DNSResult, InternalError};
use crate::network_order::{FromNetworkOrder, ToNetworkOrder, parse_u8, read_u8, write_u8};
use crate::util::is_pointer;

verus! {

/// The longest label, in octets.
pub const MAX_LABEL_LEN: usize = 63;

/// The longest domain name on the wire, in octets.
pub const MAX_NAME_LEN: usize = 255;

/// A length-prefixed run of 0 to 255 octets. The octets need not be UTF-8.
#[derive(Debug, Clone, PartialEq, Eq, Default)]
pub struct CharacterString {
    pub data: Vec<u8>,
}

impl View for CharacterString {
    type V = Seq<u8>;

    open spec fn view(&self) -> Seq<u8> {
        self.data@
    }
}

impl CharacterString {
    /// The octets of `s`.
    pub fn from(s: &str) -> (r: CharacterString)
        ensures
            r@ == s.spec_bytes(),
    {
        CharacterString { data: vstd::slice::slice_to_vec(s.as_bytes()) }
    }

    /// The octets as text; `NonUtf8Text` when they are not UTF-8.
    pub fn to_text(&self) -> (r: DNSResult<String>)
        ensures
            valid_utf8(self@) ==> (r matches Ok(t) && t@ == decode_utf8(self@)),
            !valid_utf8(self@) ==> r matches Err(DNSError::NonUtf8Text),
    {
        let bytes = vstd::slice::slice_to_vec(self.data.as_slice());
        match utf8_text(bytes) {
            Some(t) => Ok(t),
            None => Err(DNSError::NonUtf8Text),
        }
    }
}

/// Relies on `String::from_utf8`: it returns the text exactly when the octets
/// are well-formed UTF-8.
#[verifier::external_body]
fn utf8_text(bytes: Vec<u8>) -> (r: Option<String>)
    ensures
        r is Some <==> valid_utf8(bytes@),
        r matches Some(t) ==> t@ == decode_utf8(bytes@),
{
    String::from_utf8(bytes).ok()
}

/// The labels written as text, each followed by a dot; the root adds nothing.
pub open spec fn labels_text(ls: Seq<Option<Seq<u8>>>) -> Seq<u8>
    decreases ls.len(),
{
    if ls.len() == 0 {
        seq![]
    } else {
        (match ls[0] {
            Some(d) => d + seq![DOT],
            None => Seq::<u8>::empty(),
        }) + labels_text(ls.drop_first())
    }
}

/// A name as dotted text with its final dot; the root alone is `.`.
pub open spec fn name_text(ls: Seq<Option<Seq<u8>>>) -> Seq<u8> {
    if ls.len() > 0 && ls[0] is None {
        seq![DOT]
    } else {
        labels_text(ls)
    }
}

/// One component of a domain name: a label, or the empty root label that ends it.
#[derive(Debug, Clone, PartialEq, Eq)]
pub enum LabelType {
    Label(CharacterString),
    Root,
}

impl View for LabelType {
    /// `None` stands for the root.
    type V = Option<Seq<u8>>;

    open spec fn view(&self) -> Option<Seq<u8>> {
        match self {
            LabelType::Label(cs) => Some(cs@),
            LabelType::Root => None,
        }
    }
}

impl LabelType {
    pub fn is_root(&self) -> (r: bool)
        ensures
            r == (self@ is None),
    {
        matches!(self, LabelType::Root)
    }
}

/// A domain name: its labels, the last one being the root.
#[derive(Debug, Clone, PartialEq, Eq, Default)]
pub struct DomainName {
    pub labels: Vec<LabelType>,
}

impl View for DomainName {
    type V = Seq<Option<Seq<u8>>>;

    open spec fn view(&self) -> Seq<Option<Seq<u8>>> {
        self.labels@.map_values(|l: LabelType| l@)
    }
}

/// The wire form of one label: its length octet then its octets; the root is a zero octet.
pub open spec fn label_wire(l: Option<Seq<u8>>) -> Seq<u8> {
    match l {
        Some(d) => seq![d.len() as u8] + d,
        None => seq![0u8],
    }
}

/// The wire form of a sequence of labels, without compression.
pub open spec fn name_wire(ls: Seq<Option<Seq<u8>>>) -> Seq<u8>
    decreases ls.len(),
{
    if ls.len() == 0 {
        seq![]
    } else {
        label_wire(ls[0]) + name_wire(ls.drop_first())
    }
}

/// A label holds 1 to 63 octets.
pub open spec fn valid_label(d: Seq<u8>) -> bool {
    1 <= d.len() <= MAX_LABEL_LEN
}

/// A name that can be written: labels of 1 to 63 octets, then the root, and at
/// most 255 octets in all.
pub open spec fn valid_name(ls: Seq<Option<Seq<u8>>>) -> bool {
    &&& ls.len() >= 1
    &&& ls.last() is None
    &&& forall|i: int| 0 <= i < ls.len() - 1 ==> (#[trigger] ls[i] matches Some(d) && valid_label(d))
    &&& name_wire(ls).len() <= MAX_NAME_LEN
}

/// The octets of each label before the root.
pub open spec fn name_data(ls: Seq<Option<Seq<u8>>>) -> Seq<Seq<u8>> {
    ls.drop_last().map_values(|o: Option<Seq<u8>>| match o {
        Some(d) => d,
        None => Seq::<u8>::empty(),
    })
}

/// The encoded length of labels written without compression, the root excluded.
pub open spec fn labels_len(ds: Seq<Seq<u8>>) -> int
    decreases ds.len(),
{
    if ds.len() == 0 {
        0
    } else {
        labels_len(ds.drop_last()) + 1 + ds.last().len()
    }
}

/// The labels `ds` followed by the root.
pub open spec fn as_name(ds: Seq<Seq<u8>>) -> Seq<Option<Seq<u8>>> {
    ds.map_values(|d: Seq<u8>| Some(d)).push(None)
}

/// The offset held by the pointer whose two octets are `b0` and `b1`.
pub open spec fn pointer_offset(b0: u8, b1: u8) -> int {
    (b0 as int - 192) * 256 + b1 as int
}

/// The outcome of reading the labels of a name with a budget of pointer jumps.
pub enum Walk {
    /// The labels read, and the position just past the structural end of the
    /// first run (past its zero octet or past its first pointer).
    Done(Seq<Seq<u8>>, int),
    Fail(DNSError),
    /// Ending the name needs more jumps than the budget.
    OutOfJumps,
}

/// Reads labels from `p`, following at most `fuel` pointers. A pointer must
/// point strictly before itself.
pub open spec fn walk(buf: Seq<u8>, p: int, fuel: int) -> Walk
    decreases fuel, buf.len() - p,
{
    if p < 0 || p >= buf.len() {
        Walk::Fail(DNSError::ShortRead)
    } else if buf[p] == 0 {
        Walk::Done(seq![], p + 1)
    } else if buf[p] >= 192 {
        if p + 1 >= buf.len() {
            Walk::Fail(DNSError::ShortRead)
        } else {
            let q = pointer_offset(buf[p], buf[p + 1]);
            if q >= p {
                Walk::Fail(DNSError::MalformedName)
            } else if fuel <= 0 {
                Walk::OutOfJumps
            } else {
                match walk(buf, q, fuel - 1) {
                    Walk::Done(ds, _) => Walk::Done(ds, p + 2),
                    other => other,
                }
            }
        }
    } else if buf[p] >= 64 {
        Walk::Fail(DNSError::MalformedName)
    } else {
        let len = buf[p] as int;
        if p + 1 + len > buf.len() {
            Walk::Fail(DNSError::ShortRead)
        } else {
            match walk(buf, p + 1 + len, fuel) {
                Walk::Done(ds, end) => Walk::Done(seq![buf.subrange(p + 1, p + 1 + len)] + ds, end),
                other => other,
            }
        }
    }
}

pub open spec fn walk_result(w: Walk) -> Result<(Seq<Seq<u8>>, int), DNSError> {
    match w {
        Walk::Done(ds, end) => Ok((ds, end)),
        Walk::Fail(e) => Err(e),
        Walk::OutOfJumps => Err(DNSError::MalformedName),
    }
}

/// The labels read from position `p`, following every pointer (each strictly
/// before itself), and the position just past the structural end of the first
/// run. A name whose pointers loop never ends: it is malformed.
pub open spec fn raw_name(buf: Seq<u8>, p: int) -> Result<(Seq<Seq<u8>>, int), DNSError> {
    if exists|f: int| 0 <= f && !(#[trigger] walk(buf, p, f) is OutOfJumps) {
        let f = choose|f: int| 0 <= f && !(#[trigger] walk(buf, p, f) is OutOfJumps);
        walk_result(walk(buf, p, f))
    } else {
        Err(DNSError::MalformedName)
    }
}

/// The outcome of a whole read, given the labels `ds` read before `w` and
/// the end fixed by the first pointer, if one was followed.
pub open spec fn lift(ds: Seq<Seq<u8>>, jumped: bool, end: int, w: Walk) -> Walk {
    match w {
        Walk::Done(rest, e) => Walk::Done(ds + rest, if jumped { end } else { e }),
        other => other,
    }
}

/// A walk that ends gives the same outcome with any larger budget.
pub proof fn lemma_walk_more_fuel(buf: Seq<u8>, p: int, f1: int, f2: int)
    requires
        0 <= f1 <= f2,
        !(walk(buf, p, f1) is OutOfJumps),
    ensures
        walk(buf, p, f2) == walk(buf, p, f1),
    decreases f1, buf.len() - p,
{
    if 0 <= p < buf.len() && buf[p] != 0 {
        if buf[p] >= 192 {
            if p + 1 < buf.len() {
                let q = pointer_offset(buf[p], buf[p + 1]);
                if q < p && f1 > 0 {
                    lemma_walk_more_fuel(buf, q, f1 - 1, f2 - 1);
                }
            }
        } else if buf[p] < 64 {
            let len = buf[p] as int;
            if p + 1 + len <= buf.len() {
                lemma_walk_more_fuel(buf, p + 1 + len, f1, f2);
            }
        }
    }
}

/// A walk that ends gives the name's outcome.
pub proof fn lemma_raw_name_of_walk(buf: Seq<u8>, p: int, f: int)
    requires
        0 <= f,
        !(walk(buf, p, f) is OutOfJumps),
    ensures
        raw_name(buf, p) == walk_result(walk(buf, p, f)),
{
    assert(0 <= f && !(walk(buf, p, f) is OutOfJumps));
    let g = choose|g: int| 0 <= g && !(#[trigger] walk(buf, p, g) is OutOfJumps);
    if g <= f {
        lemma_walk_more_fuel(buf, p, g, f);
    } else {
        lemma_walk_more_fuel(buf, p, f, g);
    }
}

/// A name none of whose walks ends, whatever the budget, is malformed.
proof fn lemma_raw_name_loops(buf: Seq<u8>, p: int)
    requires
        forall|f: int| 0 <= f ==> #[trigger] walk(buf, p, f) is OutOfJumps,
    ensures
        raw_name(buf, p) == Err::<(Seq<Seq<u8>>, int), DNSError>(DNSError::MalformedName),
{
}

proof fn lemma_loop_at(buf: Seq<u8>, p0: int, x: int, j: int, k: int, g: int)
    requires
        0 <= j < k,
        0 <= g,
        forall|f: int| 0 <= f < k ==> #[trigger] walk(buf, p0, f) is OutOfJumps,
        forall|h: int| 0 <= h ==> (walk(buf, p0, j + h) is OutOfJumps) == (#[trigger] walk(buf, x, h) is OutOfJumps),
        forall|h: int| 0 <= h ==> (walk(buf, p0, k + h) is OutOfJumps) == (#[trigger] walk(buf, x, h) is OutOfJumps),
    ensures
        walk(buf, x, g) is OutOfJumps,
    decreases g,
{
    assert((walk(buf, p0, j + g) is OutOfJumps) == (walk(buf, x, g) is OutOfJumps));
    if g < k - j {
        assert(walk(buf, p0, j + g) is OutOfJumps);
    } else {
        let h = g - (k - j);
        lemma_loop_at(buf, p0, x, j, k, h);
        assert((walk(buf, p0, k + h) is OutOfJumps) == (walk(buf, x, h) is OutOfJumps));
        assert(k + h == j + g);
    }
}

/// When reading from `p0` reaches the pointer at `x` after `j` jumps and again
/// after `k > j` jumps, reading loops: no budget makes it end.
proof fn lemma_revisit_loops(buf: Seq<u8>, p0: int, x: int, j: int, k: int)
    requires
        0 <= j < k,
        forall|f: int| 0 <= f < k ==> #[trigger] walk(buf, p0, f) is OutOfJumps,
        forall|h: int| 0 <= h ==> (walk(buf, p0, j + h) is OutOfJumps) == (#[trigger] walk(buf, x, h) is OutOfJumps),
        forall|h: int| 0 <= h ==> (walk(buf, p0, k + h) is OutOfJumps) == (#[trigger] walk(buf, x, h) is OutOfJumps),
    ensures
        forall|f: int| 0 <= f ==> #[trigger] walk(buf, p0, f) is OutOfJumps,
{
    assert forall|f: int| 0 <= f implies #[trigger] walk(buf, p0, f) is OutOfJumps by {
        if f >= k {
            lemma_loop_at(buf, p0, x, j, k, f - k);
            assert((walk(buf, p0, k + (f - k)) is OutOfJumps) == (walk(buf, x, f - k) is OutOfJumps));
        }
    }
}

/// The domain name at `pos` of the message `buf`, and the position just past it.
/// A name longer than 255 octets once written without compression is malformed.
pub open spec fn parse_name(buf: Seq<u8>, pos: int) -> Result<(Seq<Option<Seq<u8>>>, int), DNSError> {
    match raw_name(buf, pos) {
        Ok((ds, end)) => if labels_len(ds) + 1 > MAX_NAME_LEN {
            Err(DNSError::MalformedName)
        } else {
            Ok((as_name(ds), end))
        },
        Err(e) => Err(e),
    }
}

proof fn lemma_labels_len_push(ds: Seq<Seq<u8>>, d: Seq<u8>)
    ensures
        labels_len(ds.push(d)) == labels_len(ds) + 1 + d.len(),
{
    assert(ds.push(d).drop_last() == ds);
}

proof fn lemma_labels_len_nonneg(ds: Seq<Seq<u8>>)
    ensures
        labels_len(ds) >= 0,
    decreases ds.len(),
{
    if ds.len() > 0 {
        lemma_labels_len_nonneg(ds.drop_last());
    }
}

proof fn lemma_name_wire_append(a: Seq<Option<Seq<u8>>>, b: Seq<Option<Seq<u8>>>)
    ensures
        name_wire(a + b) == name_wire(a) + name_wire(b),
    decreases a.len(),
{
    if a.len() == 0 {
        assert(a + b == b);
    } else {
        assert((a + b).drop_first() == a.drop_first() + b);
        lemma_name_wire_append(a.drop_first(), b);
    }
}

/// The root alone is written as one zero octet.
pub proof fn lemma_root_wire()
    ensures
        name_wire(seq![None::<Seq<u8>>]) == seq![0u8],
        valid_name(seq![None::<Seq<u8>>]),
{
    lemma_name_wire_single(None);
}

proof fn lemma_name_wire_single(l: Option<Seq<u8>>)
    ensures
        name_wire(seq![l]) == label_wire(l),
{
    assert(seq![l].drop_first() == Seq::<Option<Seq<u8>>>::empty());
    assert(name_wire(Seq::<Option<Seq<u8>>>::empty()) == Seq::<u8>::empty());
    assert(label_wire(l) + Seq::<u8>::empty() == label_wire(l));
}

/// The length of the uncompressed labels is `labels_len`.
proof fn lemma_name_wire_len(ds: Seq<Seq<u8>>)
    ensures
        name_wire(ds.map_values(|d: Seq<u8>| Some(d))).len() == labels_len(ds),
        name_wire(as_name(ds)).len() == labels_len(ds) + 1,
    decreases ds.len(),
{
    let m = ds.map_values(|d: Seq<u8>| Some(d));
    if ds.len() > 0 {
        let init = ds.drop_last();
        lemma_name_wire_len(init);
        assert(m == init.map_values(|d: Seq<u8>| Some(d)) + seq![Some(ds.last())]);
        lemma_name_wire_append(init.map_values(|d: Seq<u8>| Some(d)), seq![Some(ds.last())]);
        lemma_name_wire_single(Some(ds.last()));
    } else {
        assert(m == Seq::<Option<Seq<u8>>>::empty());
    }
    assert(as_name(ds) == m + seq![None::<Seq<u8>>]);
    lemma_name_wire_append(m, seq![None::<Seq<u8>>]);
    lemma_name_wire_single(None);
}

/// Reading back uncompressed labels of 1 to 63 octets each gives them again.
proof fn lemma_walk_of_wire(buf: Seq<u8>, p: int, fuel: int, ds: Seq<Seq<u8>>)
    requires
        0 <= p,
        p + name_wire(as_name(ds)).len() <= buf.len(),
        buf.subrange(p, p + name_wire(as_name(ds)).len()) == name_wire(as_name(ds)),
        forall|i: int| 0 <= i < ds.len() ==> valid_label(#[trigger] ds[i]),
    ensures
        walk(buf, p, fuel) == Walk::Done(ds, p + name_wire(as_name(ds)).len()),
    decreases ds.len(),
{
    let w = name_wire(as_name(ds));
    if ds.len() == 0 {
        assert(as_name(ds) == seq![None::<Seq<u8>>]);
        lemma_name_wire_single(None);
        assert(w == seq![0u8]);
        assert(buf[p] == w[0]);
        assert(ds == Seq::<Seq<u8>>::empty());
    } else {
        let d = ds[0];
        let rest = ds.drop_first();
        assert(as_name(ds)[0] == Some(d));
        assert(as_name(ds).drop_first() == as_name(rest));
        let wr = name_wire(as_name(rest));
        assert(w == label_wire(Some(d)) + wr);
        assert(valid_label(d));
        assert(w[0] == d.len() as u8);
        assert(buf[p] == w[0]);
        assert(buf[p] as int == d.len());
        assert(buf.subrange(p + 1, p + 1 + d.len()) == w.subrange(1, 1 + d.len() as int));
        assert(w.subrange(1, 1 + d.len() as int) == d);
        assert(buf.subrange(p + 1 + d.len(), p + 1 + d.len() + wr.len()) == w.subrange(1 + d.len() as int, w.len() as int));
        assert(w.subrange(1 + d.len() as int, w.len() as int) == wr);
        lemma_walk_of_wire(buf, p + 1 + d.len(), fuel, rest);
        assert(seq![d] + rest == ds);
    }
}

proof fn lemma_as_name_of_data(ls: Seq<Option<Seq<u8>>>)
    requires
        valid_name(ls),
    ensures
        as_name(name_data(ls)) == ls,
        forall|i: int| 0 <= i < name_data(ls).len() ==> valid_label(#[trigger] name_data(ls)[i]),
{
    let ds = name_data(ls);
    assert forall|i: int| 0 <= i < ds.len() implies valid_label(#[trigger] ds[i]) by {
        assert(ls[i] matches Some(d) && valid_label(d));
    }
    assert forall|i: int| 0 <= i < ls.len() implies #[trigger] as_name(ds)[i] == ls[i] by {
        if i < ls.len() - 1 {
            assert(ls[i] matches Some(d) && valid_label(d));
        }
    }
    assert(as_name(ds) =~= ls);
}

/// A valid name, written without compression, reads back as the same labels
/// and the root, and the cursor ends just past it.
pub proof fn lemma_name_round_trip(ls: Seq<Option<Seq<u8>>>, prefix: Seq<u8>, suffix: Seq<u8>)
    requires
        valid_name(ls),
    ensures
        parse_name(prefix + name_wire(ls) + suffix, prefix.len() as int)
            == Ok::<(Seq<Option<Seq<u8>>>, int), DNSError>((ls, prefix.len() + name_wire(ls).len() as int)),
{
    let buf = prefix + name_wire(ls) + suffix;
    let p = prefix.len() as int;
    lemma_as_name_of_data(ls);
    let ds = name_data(ls);
    assert(buf.subrange(p, p + name_wire(ls).len()) == name_wire(ls));
    lemma_walk_of_wire(buf, p, 0, ds);
    lemma_raw_name_of_walk(buf, p, 0);
    lemma_name_wire_len(ds);
}

/// A name whose first octet is a pointer to an earlier offset reads as the
/// name at that offset, and the cursor ends just past the pointer.
pub proof fn lemma_pointer_reads_pointee(buf: Seq<u8>, p: int)
    requires
        0 <= p,
        p + 1 < buf.len(),
        buf[p] >= 192,
        pointer_offset(buf[p], buf[p + 1]) < p,
    ensures
        match raw_name(buf, pointer_offset(buf[p], buf[p + 1])) {
            Ok((ds, _)) => raw_name(buf, p) == Ok::<(Seq<Seq<u8>>, int), DNSError>((ds, p + 2)),
            Err(e) => raw_name(buf, p) == Err::<(Seq<Seq<u8>>, int), DNSError>(e),
        },
        parse_name(buf, pointer_offset(buf[p], buf[p + 1])) matches Ok((v, _))
            ==> parse_name(buf, p) == Ok::<(Seq<Option<Seq<u8>>>, int), DNSError>((v, p + 2)),
{
    let q = pointer_offset(buf[p], buf[p + 1]);
    if exists|f: int| 0 <= f && !(#[trigger] walk(buf, q, f) is OutOfJumps) {
        let f = choose|f: int| 0 <= f && !(#[trigger] walk(buf, q, f) is OutOfJumps);
        lemma_raw_name_of_walk(buf, q, f);
        assert(walk(buf, p, f + 1) == match walk(buf, q, f) {
            Walk::Done(ds, _) => Walk::Done(ds, p + 2),
            other => other,
        });
        lemma_raw_name_of_walk(buf, p, f + 1);
    } else {
        assert forall|f: int| 0 <= f implies #[trigger] walk(buf, p, f) is OutOfJumps by {
            if f > 0 {
                assert(walk(buf, q, f - 1) is OutOfJumps);
            }
        }
        lemma_raw_name_loops(buf, p);
    }
}

/// A label followed by the rest of a name reads as that label then the labels
/// of the rest, the rest ending where the name ends.
pub proof fn lemma_label_then_rest(buf: Seq<u8>, p: int)
    requires
        0 <= p < buf.len(),
        1 <= buf[p] < 64,
        p + 1 + buf[p] <= buf.len(),
    ensures
        match raw_name(buf, p + 1 + buf[p]) {
            Ok((ds, e)) => raw_name(buf, p) == Ok::<(Seq<Seq<u8>>, int), DNSError>(
                (seq![buf.subrange(p + 1, p + 1 + buf[p])] + ds, e),
            ),
            Err(x) => raw_name(buf, p) == Err::<(Seq<Seq<u8>>, int), DNSError>(x),
        },
{
    let next = p + 1 + buf[p];
    if exists|f: int| 0 <= f && !(#[trigger] walk(buf, next, f) is OutOfJumps) {
        let f = choose|f: int| 0 <= f && !(#[trigger] walk(buf, next, f) is OutOfJumps);
        lemma_raw_name_of_walk(buf, next, f);
        lemma_raw_name_of_walk(buf, p, f);
    } else {
        assert forall|f: int| 0 <= f implies #[trigger] walk(buf, p, f) is OutOfJumps by {
            assert(walk(buf, next, f) is OutOfJumps);
        }
        lemma_raw_name_loops(buf, p);
    }
}

/// A pointer at `p` whose offset is not strictly before `p` is rejected.
pub proof fn lemma_forward_pointer_rejected(buf: Seq<u8>, p: int)
    requires
        0 <= p,
        p + 1 < buf.len(),
        buf[p] >= 192,
        pointer_offset(buf[p], buf[p + 1]) >= p,
    ensures
        raw_name(buf, p) == Err::<(Seq<Seq<u8>>, int), DNSError>(DNSError::MalformedName),
        parse_name(buf, p) == Err::<(Seq<Option<Seq<u8>>>, int), DNSError>(DNSError::MalformedName),
{
    lemma_raw_name_of_walk(buf, p, 0);
}

/// A length octet whose top two bits are `01` or `10` is rejected.
pub proof fn lemma_reserved_label_bits_rejected(buf: Seq<u8>, p: int)
    requires
        0 <= p < buf.len(),
        64 <= buf[p] < 192,
    ensures
        raw_name(buf, p) == Err::<(Seq<Seq<u8>>, int), DNSError>(DNSError::MalformedName),
        parse_name(buf, p) == Err::<(Seq<Option<Seq<u8>>>, int), DNSError>(DNSError::MalformedName),
{
    lemma_raw_name_of_walk(buf, p, 0);
}

/// The octet of `.`.
pub const DOT: u8 = 0x2e;

/// The labels of a dotted name: the runs between dots, empty runs left out.
/// `cur` holds the octets of the run being read.
pub open spec fn split_labels(s: Seq<u8>, cur: Seq<u8>) -> Seq<Seq<u8>>
    decreases s.len(),
{
    if s.len() == 0 {
        if cur.len() == 0 { seq![] } else { seq![cur] }
    } else if s[0] == DOT {
        (if cur.len() == 0 { seq![] } else { seq![cur] }) + split_labels(s.drop_first(), seq![])
    } else {
        split_labels(s.drop_first(), cur.push(s[0]))
    }
}

/// The name that the dotted text `s` (its UTF-8 octets) stands for, or why it is refused.
pub open spec fn name_from_text(s: Seq<u8>) -> Result<Seq<Option<Seq<u8>>>, DNSError> {
    let ds = split_labels(s, seq![]);
    if s.len() == 0 {
        Err(DNSError::DNSInternalError(InternalError::EmptyDomainName))
    } else if labels_len(ds) + 1 > MAX_NAME_LEN {
        Err(DNSError::DNSInternalError(InternalError::DnsDomainNameTooLong))
    } else if exists|i: int| 0 <= i < ds.len() && (#[trigger] ds[i]).len() > MAX_LABEL_LEN {
        Err(DNSError::MalformedName)
    } else {
        Ok(as_name(ds))
    }
}

proof fn lemma_long_label_push(ds: Seq<Seq<u8>>, d: Seq<u8>)
    ensures
        (exists|j: int| 0 <= j < ds.push(d).len() && (#[trigger] ds.push(d)[j]).len() > MAX_LABEL_LEN)
            == ((exists|j: int| 0 <= j < ds.len() && (#[trigger] ds[j]).len() > MAX_LABEL_LEN)
            || d.len() > MAX_LABEL_LEN),
{
    if exists|j: int| 0 <= j < ds.push(d).len() && (#[trigger] ds.push(d)[j]).len() > MAX_LABEL_LEN {
        let j = choose|j: int| 0 <= j < ds.push(d).len() && (#[trigger] ds.push(d)[j]).len() > MAX_LABEL_LEN;
        if j < ds.len() {
            assert(ds.push(d)[j] == ds[j]);
        }
    }
    if exists|j: int| 0 <= j < ds.len() && (#[trigger] ds[j]).len() > MAX_LABEL_LEN {
        let j = choose|j: int| 0 <= j < ds.len() && (#[trigger] ds[j]).len() > MAX_LABEL_LEN;
        assert(ds.push(d)[j] == ds[j]);
    }
    if d.len() > MAX_LABEL_LEN {
        assert(ds.push(d)[ds.len() as int] == d);
    }
}

fn label_of(buffer: &[u8], start: usize, end: usize) -> (r: LabelType)
    requires
        start <= end <= buffer@.len(),
    ensures
        r@ == Some(buffer@.subrange(start as int, end as int)),
{
    let data = vstd::slice::slice_to_vec(vstd::slice::slice_subrange(buffer, start, end));
    LabelType::Label(CharacterString { data })
}

proof fn lemma_labels_text_append(a: Seq<Option<Seq<u8>>>, b: Seq<Option<Seq<u8>>>)
    ensures
        labels_text(a + b) == labels_text(a) + labels_text(b),
    decreases a.len(),
{
    if a.len() == 0 {
        assert(a + b == b);
    } else {
        assert((a + b).drop_first() == a.drop_first() + b);
        assert((a + b)[0] == a[0]);
        lemma_labels_text_append(a.drop_first(), b);
    }
}

impl DomainName {
    /// The name as dotted text, such as `www.example.com.`; `.` for the root.
    /// `NonUtf8Text` when the labels are not UTF-8.
    pub fn to_text(&self) -> (r: DNSResult<String>)
        ensures
            valid_utf8(name_text(self@)) ==> (r matches Ok(t) && t@ == decode_utf8(name_text(self@))),
            !valid_utf8(name_text(self@)) ==> r matches Err(DNSError::NonUtf8Text),
    {
        let ghost ls = self@;
        let mut text: Vec<u8> = Vec::new();
        if self.labels.len() > 0 && self.labels[0].is_root() {
            text.push(DOT);
        } else {
            let mut i: usize = 0;
            proof {
                assert(ls.subrange(0, 0) == Seq::<Option<Seq<u8>>>::empty());
            }
            while i < self.labels.len()
                invariant
                    ls == self@,
                    i <= ls.len(),
                    text@ == labels_text(ls.subrange(0, i as int)),
                decreases ls.len() - i,
            {
                let ghost l = ls[i as int];
                proof {
                    assert(ls.subrange(0, i + 1) == ls.subrange(0, i as int) + seq![l]);
                    lemma_labels_text_append(ls.subrange(0, i as int), seq![l]);
                    assert(seq![l].drop_first() == Seq::<Option<Seq<u8>>>::empty());
                    assert(seq![l][0] == l);
                    assert(labels_text(Seq::<Option<Seq<u8>>>::empty()) == Seq::<u8>::empty());
                    assert(l == self.labels@[i as int]@);
                }
                match &self.labels[i] {
                    LabelType::Label(cs) => {
                        write_bytes(&mut text, cs.data.as_slice());
                        text.push(DOT);
                        assert(labels_text(seq![l]) == cs@ + seq![DOT] + Seq::<u8>::empty());
                    },
                    LabelType::Root => {
                        assert(labels_text(seq![l]) == Seq::<u8>::empty() + Seq::<u8>::empty());
                    },
                }
                i += 1;
            }
            assert(ls.subrange(0, i as int) == ls);
        }
        match utf8_text(text) {
            Some(t) => Ok(t),
            None => Err(DNSError::NonUtf8Text),
        }
    }

    /// The name written as dotted text, such as `www.example.com` or `com.`;
    /// `.` alone is the root. Empty labels are skipped.
    pub fn try_from(domain: &str) -> (r: DNSResult<DomainName>)
        ensures
            match r {
                Ok(n) => name_from_text(domain.spec_bytes()) == Ok::<Seq<Option<Seq<u8>>>, DNSError>(n@),
                Err(e) => name_from_text(domain.spec_bytes()) == Err::<Seq<Option<Seq<u8>>>, DNSError>(e),
            },
    {
        let bytes = domain.as_bytes();
        let ghost s = bytes@;
        let n = bytes.len();
        if n == 0 {
            return Err(DNSError::DNSInternalError(InternalError::EmptyDomainName));
        }
        let mut labels: Vec<LabelType> = Vec::new();
        let ghost mut ds: Seq<Seq<u8>> = seq![];
        let mut start: usize = 0;
        let mut i: usize = 0;
        let mut total: usize = 0;
        let mut too_long_label = false;
        proof {
            assert(s.subrange(0, n as int) == s);
            assert(s.subrange(0, 0) == Seq::<u8>::empty());
            assert(ds + split_labels(s, seq![]) == split_labels(s, seq![]));
        }
        while i < n
            invariant
                s == bytes@,
                n == s.len(),
                start <= i <= n,
                labels@.map_values(|l: LabelType| l@) == ds.map_values(|d: Seq<u8>| Some(d)),
                total == if labels_len(ds) < 256 { labels_len(ds) } else { 256 },
                too_long_label == exists|j: int| 0 <= j < ds.len() && (#[trigger] ds[j]).len() > MAX_LABEL_LEN,
                total <= 256,
                ds + split_labels(s.subrange(i as int, n as int), s.subrange(start as int, i as int))
                    == split_labels(s, seq![]),
            decreases n - i,
        {
            proof {
                let rest = s.subrange(i as int, n as int);
                assert(rest.drop_first() == s.subrange(i + 1, n as int));
                assert(rest[0] == s[i as int]);
                assert(s.subrange(start as int, i as int).push(s[i as int]) == s.subrange(start as int, i + 1));
                assert(s.subrange(i + 1, i + 1) == Seq::<u8>::empty());
            }
            if bytes[i] == DOT {
                if i > start {
                    let label = label_of(bytes, start, i);
                    proof {
                        let d = s.subrange(start as int, i as int);
                        lemma_labels_len_push(ds, d);
                        lemma_labels_len_nonneg(ds);
                        assert(ds.push(d).map_values(|d: Seq<u8>| Some(d))
                            == ds.map_values(|d: Seq<u8>| Some(d)).push(Some(d)));
                        assert(labels@.push(label).map_values(|l: LabelType| l@)
                            == labels@.map_values(|l: LabelType| l@).push(label@));
                        assert(ds + (seq![d] + split_labels(s.subrange(i + 1, n as int), seq![]))
                            == ds.push(d) + split_labels(s.subrange(i + 1, n as int), seq![]));
                        lemma_long_label_push(ds, d);
                        ds = ds.push(d);
                    }
                    if i - start > MAX_LABEL_LEN {
                        too_long_label = true;
                    }
                    total = if i - start < 256 && total + 1 + (i - start) < 256 { total + 1 + (i - start) } else { 256 };
                    labels.push(label);
                } else {
                    proof {
                        assert(Seq::<Seq<u8>>::empty() + split_labels(s.subrange(i + 1, n as int), seq![])
                            == split_labels(s.subrange(i + 1, n as int), seq![]));
                    }
                }
                start = i + 1;
            }
            i += 1;
        }
        if i > start {
            let label = label_of(bytes, start, i);
            proof {
                let d = s.subrange(start as int, i as int);
                lemma_labels_len_push(ds, d);
                lemma_labels_len_nonneg(ds);
                assert(ds.push(d).map_values(|d: Seq<u8>| Some(d))
                    == ds.map_values(|d: Seq<u8>| Some(d)).push(Some(d)));
                assert(labels@.push(label).map_values(|l: LabelType| l@)
                    == labels@.map_values(|l: LabelType| l@).push(label@));
                assert(s.subrange(i as int, n as int) == Seq::<u8>::empty());
                assert(ds + seq![d] == ds.push(d));
                lemma_long_label_push(ds, d);
                ds = ds.push(d);
            }
            if i - start > MAX_LABEL_LEN {
                too_long_label = true;
            }
            total = if i - start < 256 && total + 1 + (i - start) < 256 { total + 1 + (i - start) } else { 256 };
            labels.push(label);
        } else {
            proof {
                assert(s.subrange(i as int, n as int) == Seq::<u8>::empty());
                assert(ds + Seq::<Seq<u8>>::empty() == ds);
            }
        }
        if total + 1 > MAX_NAME_LEN {
            return Err(DNSError::DNSInternalError(InternalError::DnsDomainNameTooLong));
        }
        if too_long_label {
            return Err(DNSError::MalformedName);
        }
        labels.push(LabelType::Root);
        proof {
            assert(labels@.map_values(|l: LabelType| l@) == as_name(ds));
        }
        Ok(DomainName { labels })
    }

    /// Reads the name at `pos` of the message `buffer`, following compression
    /// pointers, and appends its labels and the root to `self`. Returns the
    /// position just past the zero octet or past the first pointer. On error
    /// `self` is left as it was.
    pub fn from_position(&mut self, pos: usize, buffer: &[u8]) -> (r: DNSResult<usize>)
        ensures
            match r {
                Ok(end) => parse_name(buffer@, pos as int) matches Ok((v, e))
                    && e == end as int && final(self)@ == old(self)@ + v,
                Err(e) => parse_name(buffer@, pos as int) == Err::<(Seq<Option<Seq<u8>>>, int), DNSError>(e)
                    && final(self)@ == old(self)@,
            },
    {
        let ghost buf = buffer@;
        let ghost p0 = pos as int;
        let len = buffer.len();
        let mut labels: Vec<LabelType> = Vec::new();
        let ghost mut ds: Seq<Seq<u8>> = seq![];
        let mut p: usize = pos;
        let mut jumped = false;
        let mut end: usize = 0;
        // the encoded length of `ds`, capped at 256
        let mut total: usize = 0;
        // which positions hold a pointer already followed
        let mut followed: Vec<bool> = Vec::new();
        while followed.len() < len
            invariant
                followed@.len() <= len,
                forall|i: int| 0 <= i < followed@.len() ==> !followed@[i],
            decreases len - followed@.len(),
        {
            followed.push(false);
        }
        // each pointer followed, with the number of jumps made before it
        let ghost mut seen: Map<int, int> = Map::empty();
        let mut jumps: usize = 0;
        proof {
            assert(seen.dom() =~= Set::<int>::empty());
            assert forall|f: int| f >= 0 implies #[trigger] walk(buf, p0, f)
                == lift(ds, jumped, end as int, walk(buf, p as int, f - jumps)) by {
                assert(ds + Seq::<Seq<u8>>::empty() == ds);
                match walk(buf, p0, f) {
                    Walk::Done(rest, _) => {
                        assert(ds + rest == rest);
                    },
                    _ => {},
                }
            }
        }
        loop
            invariant
                self.labels@ == old(self).labels@,
                buf == buffer@,
                p0 == pos as int,
                len == buf.len(),
                labels@.map_values(|l: LabelType| l@) == ds.map_values(|d: Seq<u8>| Some(d)),
                total == if labels_len(ds) < 256 { labels_len(ds) } else { 256 },
                jumped ==> end <= len,
                followed@.len() == len,
                seen.dom().finite(),
                seen.dom().subset_of(vstd::set_lib::set_int_range(0, len as int)),
                seen.dom().len() == jumps,
                jumps <= len,
                forall|i: int| 0 <= i < len ==> followed@[i] == seen.dom().contains(i),
                forall|x: int| #[trigger] seen.dom().contains(x) ==> 0 <= seen[x] < jumps,
                forall|x: int, h: int| seen.dom().contains(x) && 0 <= h ==>
                    (walk(buf, p0, seen[x] + h) is OutOfJumps) == (#[trigger] walk(buf, x, h) is OutOfJumps),
                forall|f: int| 0 <= f < jumps ==> #[trigger] walk(buf, p0, f) is OutOfJumps,
                forall|f: int| f >= jumps ==> #[trigger] walk(buf, p0, f)
                    == lift(ds, jumped, end as int, walk(buf, p as int, f - jumps)),
            decreases len - jumps, len - p,
        {
            if p >= len {
                proof {
                    lemma_raw_name_of_walk(buf, p0, jumps as int);
                }
                return Err(DNSError::ShortRead);
            }
            let b = buffer[p];
            if b == 0 {
                let e = if jumped { end } else { p + 1 };
                proof {
                    assert(ds + Seq::<Seq<u8>>::empty() == ds);
                    assert(walk(buf, p0, jumps as int) == Walk::Done(ds, e as int));
                    lemma_raw_name_of_walk(buf, p0, jumps as int);
                }
                if total + 1 > MAX_NAME_LEN {
                    return Err(DNSError::MalformedName);
                }
                labels.push(LabelType::Root);
                proof {
                    assert(labels@.map_values(|l: LabelType| l@) == as_name(ds));
                }
                let ghost old_labels = self.labels@;
                self.labels.append(&mut labels);
                proof {
                    assert(self.labels@.map_values(|l: LabelType| l@)
                        == old_labels.map_values(|l: LabelType| l@) + as_name(ds));
                }
                return Ok(e);
            }
            if is_pointer(b) {
                if len - p < 2 {
                    proof {
                        lemma_raw_name_of_walk(buf, p0, jumps as int);
                    }
                    return Err(DNSError::ShortRead);
                }
                let q: usize = (b - 192) as usize * 256 + buffer[p + 1] as usize;
                if q >= p {
                    proof {
                        lemma_raw_name_of_walk(buf, p0, jumps as int);
                    }
                    return Err(DNSError::MalformedName);
                }
                if followed[p] {
                    // this pointer was followed before: the name loops
                    proof {
                        let x = p as int;
                        assert(seen.dom().contains(x));
                        assert forall|h: int| 0 <= h implies (walk(buf, p0, jumps + h) is OutOfJumps)
                            == (#[trigger] walk(buf, x, h) is OutOfJumps) by {
                            assert(walk(buf, p0, jumps + h) == lift(ds, jumped, end as int, walk(buf, x, jumps + h - jumps)));
                        }
                        assert forall|h: int| 0 <= h implies (walk(buf, p0, seen[x] + h) is OutOfJumps)
                            == (#[trigger] walk(buf, x, h) is OutOfJumps) by {}
                        lemma_revisit_loops(buf, p0, x, seen[x], jumps as int);
                        lemma_raw_name_loops(buf, p0);
                    }
                    return Err(DNSError::MalformedName);
                }
                proof {
                    let x = p as int;
                    let qi = q as int;
                    assert(qi == pointer_offset(buf[x], buf[x + 1]));
                    // what the jump at `x` reaches
                    assert forall|h: int| 0 <= h implies (walk(buf, p0, jumps + h) is OutOfJumps)
                        == (#[trigger] walk(buf, x, h) is OutOfJumps) by {
                        assert(walk(buf, p0, jumps + h) == lift(ds, jumped, end as int, walk(buf, x, jumps + h - jumps)));
                    }
                    let new_end: int = if jumped { end as int } else { x + 2 };
                    assert forall|f: int| f >= jumps + 1 implies #[trigger] walk(buf, p0, f)
                        == lift(ds, true, new_end, walk(buf, qi, f - (jumps + 1))) by {
                        assert(walk(buf, p0, f) == lift(ds, jumped, end as int, walk(buf, x, f - jumps)));
                        assert(walk(buf, x, f - jumps) == match walk(buf, qi, f - jumps - 1) {
                            Walk::Done(r, _) => Walk::Done(r, x + 2),
                            other => other,
                        });
                    }
                    assert(walk(buf, x, 0) is OutOfJumps);
                    assert(walk(buf, p0, jumps as int) == lift(ds, jumped, end as int, walk(buf, x, jumps - jumps)));
                    let dom2 = seen.dom().insert(x);
                    vstd::set_lib::lemma_int_range(0, len as int);
                    vstd::set_lib::lemma_len_subset(dom2, vstd::set_lib::set_int_range(0, len as int));
                    seen = seen.insert(x, jumps as int);
                    assert(seen.dom() =~= dom2);
                }
                followed[p] = true;
                if !jumped {
                    end = p + 2;
                    jumped = true;
                }
                jumps = jumps + 1;
                p = q;
            } else if b >= 64 {
                proof {
                    lemma_raw_name_of_walk(buf, p0, jumps as int);
                }
                return Err(DNSError::MalformedName);
            } else {
                let size = b as usize;
                if len - p - 1 < size {
                    proof {
                        lemma_raw_name_of_walk(buf, p0, jumps as int);
                    }
                    return Err(DNSError::ShortRead);
                }
                let label = label_of(buffer, p + 1, p + 1 + size);
                proof {
                    let d = buf.subrange(p + 1, p + 1 + size);
                    let next = p + 1 + size;
                    lemma_labels_len_push(ds, d);
                    lemma_labels_len_nonneg(ds);
                    assert(ds.push(d).map_values(|d: Seq<u8>| Some(d))
                        == ds.map_values(|d: Seq<u8>| Some(d)).push(Some(d)));
                    assert(labels@.push(label).map_values(|l: LabelType| l@)
                        == labels@.map_values(|l: LabelType| l@).push(label@));
                    assert forall|f: int| f >= jumps implies #[trigger] walk(buf, p0, f)
                        == lift(ds.push(d), jumped, end as int, walk(buf, next, f - jumps)) by {
                        assert(walk(buf, p0, f) == lift(ds, jumped, end as int, walk(buf, p as int, f - jumps)));
                        match walk(buf, next, f - jumps) {
                            Walk::Done(rest, _) => {
                                assert(ds + (seq![d] + rest) == ds.push(d) + rest);
                            },
                            _ => {},
                        }
                    }
                    ds = ds.push(d);
                }
                labels.push(label);
                total = if total + 1 + size < 256 { total + 1 + size } else { 256 };
                p = p + 1 + size;
            }
        }
    }
}

/// Appends the octets of `bytes`.
pub fn write_bytes(buffer: &mut Vec<u8>, bytes: &[u8])
    ensures
        final(buffer)@ == old(buffer)@ + bytes@,
{
    let ghost start = buffer@;
    let mut i: usize = 0;
    while i < bytes.len()
        invariant
            i <= bytes@.len(),
            buffer@ == start + bytes@.subrange(0, i as int),
        decreases bytes@.len() - i,
    {
        buffer.push(bytes[i]);
        proof {
            assert(bytes@.subrange(0, i + 1) == bytes@.subrange(0, i as int).push(bytes@[i as int]));
        }
        i += 1;
    }
    assert(bytes@.subrange(0, i as int) == bytes@);
}

impl ToNetworkOrder for CharacterString {
    open spec fn encodable(&self) -> bool {
        self@.len() <= 255
    }

    open spec fn wire(&self) -> Seq<u8> {
        seq![self@.len() as u8] + self@
    }

    fn to_network_bytes(&self, buffer: &mut Vec<u8>) -> (r: usize) {
        write_u8(buffer, self.data.len() as u8);
        write_bytes(buffer, self.data.as_slice());
        self.data.len() + 1
    }
}

/// The character string at `pos`: a length octet, then that many octets.
pub open spec fn parse_character_string(buf: Seq<u8>, pos: int) -> Result<(Seq<u8>, int), DNSError> {
    match parse_u8(buf, pos) {
        Ok((n, p)) => if p + n > buf.len() {
            Err(DNSError::ShortRead)
        } else {
            Ok((buf.subrange(p, p + n), p + n))
        },
        Err(e) => Err(e),
    }
}

impl FromNetworkOrder for CharacterString {
    open spec fn parse(buf: Seq<u8>, pos: int) -> Result<(Seq<u8>, int), DNSError> {
        parse_character_string(buf, pos)
    }

    fn from_network_bytes(&mut self, buffer: &[u8], pos: usize) -> (r: DNSResult<usize>) {
        let (n, p) = read_u8(buffer, pos)?;
        if buffer.len() - p < n as usize {
            return Err(DNSError::ShortRead);
        }
        let end = p + n as usize;
        self.data = vstd::slice::slice_to_vec(vstd::slice::slice_subrange(buffer, p, end));
        Ok(end)
    }
}

/// A character string read back after being written is the same string.
pub proof fn lemma_character_string_round_trip(d: Seq<u8>, prefix: Seq<u8>, suffix: Seq<u8>)
    requires
        d.len() <= 255,
    ensures
        parse_character_string(prefix + (seq![d.len() as u8] + d) + suffix, prefix.len() as int)
            == Ok::<(Seq<u8>, int), DNSError>((d, prefix.len() as int + 1 + d.len() as int)),
{
    let buf = prefix + (seq![d.len() as u8] + d) + suffix;
    let p = prefix.len() as int;
    assert(buf[p] == d.len() as u8);
    assert(buf.subrange(p + 1, p + 1 + d.len()) == d);
}

impl ToNetworkOrder for DomainName {
    open spec fn encodable(&self) -> bool {
        valid_name(self@)
    }

    open spec fn wire(&self) -> Seq<u8> {
        name_wire(self@)
    }

    fn to_network_bytes(&self, buffer: &mut Vec<u8>) -> (r: usize) {
        let ghost start = buffer@;
        let ghost ls = self@;
        let mut i: usize = 0;
        let mut length: usize = 0;
        proof {
            assert(ls.subrange(0, 0) == Seq::<Option<Seq<u8>>>::empty());
            assert(ls.subrange(0, ls.len() as int) == ls);
            assert(name_wire(Seq::<Option<Seq<u8>>>::empty()) == Seq::<u8>::empty());
            assert(start + Seq::<u8>::empty() == start);
            assert(Seq::<u8>::empty() + name_wire(ls) == name_wire(ls));
        }
        while i < self.labels.len()
            invariant
                ls == self@,
                valid_name(ls),
                i <= ls.len(),
                buffer@ == start + name_wire(ls.subrange(0, i as int)),
                length == name_wire(ls.subrange(0, i as int)).len(),
                start.len() + name_wire(ls).len() <= usize::MAX,
                name_wire(ls) == name_wire(ls.subrange(0, i as int)) + name_wire(ls.subrange(i as int, ls.len() as int)),
            decreases ls.len() - i,
        {
            let ghost before = buffer@;
            let ghost l = ls[i as int];
            proof {
                assert(ls.subrange(i as int, ls.len() as int) == seq![l] + ls.subrange(i + 1, ls.len() as int));
                lemma_name_wire_append(seq![l], ls.subrange(i + 1, ls.len() as int));
                lemma_name_wire_single(l);
                assert(ls.subrange(0, i + 1) == ls.subrange(0, i as int) + seq![l]);
                lemma_name_wire_append(ls.subrange(0, i as int), seq![l]);
                assert(name_wire(ls) == name_wire(ls.subrange(0, i + 1)) + name_wire(ls.subrange(i + 1, ls.len() as int)));
            }
            match &self.labels[i] {
                LabelType::Label(cs) => {
                    proof {
                        assert(ls[i as int] == self.labels@[i as int]@);
                        if i < ls.len() - 1 {
                            assert(ls[i as int] matches Some(d) && valid_label(d));
                        }
                    }
                    write_u8(buffer, cs.data.len() as u8);
                    write_bytes(buffer, cs.data.as_slice());
                    length += cs.data.len() + 1;
                },
                LabelType::Root => {
                    write_u8(buffer, 0);
                    length += 1;
                },
            }
            proof {
                assert(buffer@ == before + label_wire(l));
            }
            i += 1;
        }
        assert(ls.subrange(0, i as int) == ls);
        length
    }
}

impl FromNetworkOrder for DomainName {
    open spec fn parse(buf: Seq<u8>, pos: int) -> Result<(Seq<Option<Seq<u8>>>, int), DNSError> {
        parse_name(buf, pos)
    }

    fn from_network_bytes(&mut self, buffer: &[u8], pos: usize) -> (r: DNSResult<usize>) {
        let mut name = DomainName { labels: Vec::new() };
        let end = name.from_position(pos, buffer)?;
        proof {
            assert(Seq::<LabelType>::empty().map_values(|l: LabelType| l@) + name@ == name@);
        }
        *self = name;
        Ok(end)
    }
}

} // verus!

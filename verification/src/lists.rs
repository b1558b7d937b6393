//! The list codecs: a homogeneous list with an element-count prefix of a
//! chosen width, and the versions list whose prefix is a byte length.
//!
//! The element machinery is shared: `encode_elems` and `parse_elems` give
//! the meaning of a run of consecutive elements, and the two executable
//! helpers walk such a run for any element type of the codec contract.

use vstd::prelude::*;

use crate::bytes::{ByteSink, ByteSource};
use crate::codec::{read_be_bytes, write_be_bytes, TorSerde};
use crate::wire::{
    be_bytes, be_value, lemma_be_bytes_len, lemma_be_value_bound, lemma_be_value_of_be_bytes,
    lemma_pow256_values, pow256,
};
use crate::ErrorKind;

verus! {

/// The models of the elements of a sequence, in order.
pub open spec fn deep_views<T: DeepView>(vs: Seq<T>) -> Seq<T::V> {
    Seq::new(vs.len(), |i: int| vs[i].deep_view())
}

/// Every element satisfies its encoding precondition.
pub open spec fn elems_ok<T: TorSerde>(vs: Seq<T>) -> bool {
    forall|i: int| 0 <= i < vs.len() ==> (#[trigger] vs[i]).wire_ok()
}

/// Every element fits its own framing.
pub open spec fn elems_fit<T: TorSerde>(vs: Seq<T>) -> bool {
    forall|i: int| 0 <= i < vs.len() ==> (#[trigger] vs[i]).wire_fits()
}

/// The concatenated byte images of the elements, in order.
pub open spec fn encode_elems<T: TorSerde>(vs: Seq<T>) -> Seq<u8>
    decreases vs.len(),
{
    if vs.len() == 0 {
        Seq::empty()
    } else {
        vs[0].wire_bytes() + encode_elems(vs.skip(1))
    }
}

/// Parse exactly `count` consecutive elements: their models and the total
/// number of bytes consumed, or the first element error.
pub open spec fn parse_elems<T: TorSerde>(s: Seq<u8>, count: nat) -> Result<
    (Seq<T::V>, int),
    ErrorKind,
>
    decreases count,
{
    if count == 0 {
        Ok((Seq::empty(), 0))
    } else {
        match T::wire_parse(s) {
            Ok(p) => match parse_elems::<T>(s.skip(p.1), (count - 1) as nat) {
                Ok(q) => Ok((seq![p.0] + q.0, p.1 + q.1)),
                Err(e) => Err(e),
            },
            Err(e) => Err(e),
        }
    }
}

/// One definitional unfolding of `parse_elems`, with the head parse given
/// by name.
pub proof fn lemma_parse_elems_unfold<T: TorSerde>(s: Seq<u8>, count: nat, m: T::V, n: int)
    requires
        count > 0,
        T::wire_parse(s) == Ok::<(T::V, int), ErrorKind>((m, n)),
    ensures
        parse_elems::<T>(s, count) == (match parse_elems::<T>(s.skip(n), (count - 1) as nat) {
            Ok(q) => Ok::<(Seq<T::V>, int), ErrorKind>((seq![m] + q.0, n + q.1)),
            Err(e) => Err::<(Seq<T::V>, int), ErrorKind>(e),
        }),
{
}

/// Splitting a sequence of elements splits its encoded image.
pub proof fn lemma_encode_elems_split<T: TorSerde>(vs: Seq<T>, i: int)
    requires
        0 <= i <= vs.len(),
    ensures
        encode_elems(vs) == encode_elems(vs.take(i)) + encode_elems(vs.skip(i)),
    decreases i,
{
    if i == 0 {
        assert(vs.take(0) =~= Seq::<T>::empty());
        assert(vs.skip(0) =~= vs);
        assert(encode_elems(vs) =~= encode_elems(vs.take(0)) + encode_elems(vs.skip(0)));
    } else {
        lemma_encode_elems_split(vs.skip(1), i - 1);
        assert(vs.skip(1).take(i - 1) =~= vs.take(i).skip(1));
        assert(vs.skip(1).skip(i - 1) =~= vs.skip(i));
        assert(vs.take(i)[0] == vs[0]);
        assert(encode_elems(vs.take(i)) == vs[0].wire_bytes() + encode_elems(vs.take(i).skip(1)));
        assert(encode_elems(vs) == vs[0].wire_bytes() + encode_elems(vs.skip(1)));
        assert(encode_elems(vs) =~= encode_elems(vs.take(i)) + encode_elems(vs.skip(i)));
    }
}

/// Extending a prefix by one element appends that element's image.
pub proof fn lemma_encode_elems_snoc<T: TorSerde>(vs: Seq<T>, i: int)
    requires
        0 <= i < vs.len(),
    ensures
        encode_elems(vs.take(i + 1)) == encode_elems(vs.take(i)) + vs[i].wire_bytes(),
{
    lemma_encode_elems_split(vs.take(i + 1), i);
    assert(vs.take(i + 1).take(i) =~= vs.take(i));
    assert(vs.take(i + 1).skip(i) =~= seq![vs[i]]);
    assert(encode_elems(seq![vs[i]]) == vs[i].wire_bytes() + encode_elems(seq![vs[i]].skip(1)));
    assert(seq![vs[i]].skip(1) =~= Seq::<T>::empty());
    assert(encode_elems(vs.take(i + 1)) =~= encode_elems(vs.take(i)) + vs[i].wire_bytes());
}

/// Parsing a run of elements never consumes more bytes than the input
/// holds, and returns one model per element.
pub proof fn lemma_parse_elems_len<T: TorSerde>(s: Seq<u8>, count: nat)
    requires
        T::wire_decodable(),
    ensures
        parse_elems::<T>(s, count) matches Ok(q) ==> {
            &&& 0 <= q.1 <= s.len()
            &&& q.0.len() == count
        },
    decreases count,
{
    if count > 0 {
        match T::wire_parse(s) {
            Ok(p) => {
                T::lemma_parse_len(s);
                lemma_parse_elems_len::<T>(s.skip(p.1), (count - 1) as nat);
            },
            Err(_) => {},
        }
    }
}

/// Round trip for element runs: the concatenated images of the elements,
/// followed by anything at all, parse back to exactly the element models.
pub proof fn lemma_parse_encode_elems<T: TorSerde>(vs: Seq<T>, rest: Seq<u8>)
    requires
        elems_ok(vs),
        elems_fit(vs),
        T::wire_decodable(),
    ensures
        parse_elems::<T>(encode_elems(vs) + rest, vs.len()) matches Ok(q) && q.0 == deep_views(vs)
            && q.1 == encode_elems(vs).len(),
    decreases vs.len(),
{
    if vs.len() == 0 {
        assert(deep_views(vs) =~= Seq::<<T as DeepView>::V>::empty());
    } else {
        let s = encode_elems(vs) + rest;
        let tailrest = encode_elems(vs.skip(1)) + rest;
        assert(s =~= vs[0].wire_bytes() + tailrest);
        vs[0].lemma_encode_parse(tailrest);
        let n0 = vs[0].wire_bytes().len() as int;
        assert(s.skip(n0) =~= tailrest);
        assert forall|i: int| 0 <= i < vs.skip(1).len() implies (#[trigger] vs.skip(1)[i]).wire_ok()
            && vs.skip(1)[i].wire_fits() by {
            assert(vs.skip(1)[i] == vs[i + 1]);
        }
        lemma_parse_encode_elems::<T>(vs.skip(1), rest);
        lemma_parse_elems_unfold::<T>(s, vs.len(), vs[0].deep_view(), n0);
        assert(deep_views(vs) =~= seq![vs[0].deep_view()] + deep_views(vs.skip(1)));
    }
}

/// Encode the elements of `vs` in order, tracking `base` plus the bytes
/// written; reject with `LengthOverflow` as soon as the running total
/// leaves `u32` range or an element does not fit its own framing.
pub(crate) fn serialise_elems<T: TorSerde>(vs: &Vec<T>, base: u64, sink: &mut ByteSink) -> (r:
    Result<u64, ErrorKind>)
    requires
        elems_ok(vs@),
        base <= 0xFFFF_FFFF,
    ensures
        match r {
            Ok(n) => {
                &&& elems_fit(vs@)
                &&& n as int == base + encode_elems(vs@).len()
                &&& n <= 0xFFFF_FFFF
                &&& final(sink)@ == old(sink)@ + encode_elems(vs@)
            },
            Err(e) => {
                &&& e == ErrorKind::LengthOverflow
                &&& !elems_fit(vs@) || base + encode_elems(vs@).len() > 0xFFFF_FFFF
                &&& old(sink)@.is_prefix_of(final(sink)@)
            },
        },
{
    let mut total: u64 = base;
    let mut idx: usize = 0;
    proof {
        assert(vs@.take(0) =~= Seq::<T>::empty());
        assert(sink@ =~= old(sink)@ + encode_elems(vs@.take(0)));
    }
    while idx < vs.len()
        invariant
            idx <= vs@.len(),
            elems_ok(vs@),
            base <= 0xFFFF_FFFF,
            total as int == base + encode_elems(vs@.take(idx as int)).len(),
            total <= 0xFFFF_FFFF,
            elems_fit(vs@.take(idx as int)),
            sink@ == old(sink)@ + encode_elems(vs@.take(idx as int)),
        decreases vs@.len() - idx,
    {
        match vs[idx].bin_serialise_into(sink) {
            Ok(n) => {
                proof {
                    lemma_encode_elems_snoc(vs@, idx as int);
                }
                total = total + n as u64;
                idx = idx + 1;
                proof {
                    assert forall|i: int| 0 <= i < idx implies (#[trigger] vs@.take(
                        idx as int,
                    )[i]).wire_fits() by {
                        assert(vs@.take(idx as int)[i] == vs@[i]);
                        if i < idx - 1 {
                            assert(vs@.take(idx as int - 1)[i] == vs@[i]);
                            assert(vs@.take(idx as int - 1)[i].wire_fits());
                        }
                    }
                }
                if total > 0xFFFF_FFFF {
                    proof {
                        lemma_encode_elems_split(vs@, idx as int);
                        assert(old(sink)@.is_prefix_of(sink@));
                    }
                    return Err(ErrorKind::LengthOverflow);
                }
            },
            Err(e) => {
                proof {
                    assert(!(vs@[idx as int]).wire_fits());
                    assert(!elems_fit(vs@));
                    assert(old(sink)@.is_prefix_of(old(sink)@ + encode_elems(
                        vs@.take(idx as int),
                    )));
                }
                return Err(e);
            },
        }
    }
    proof {
        assert(vs@.take(vs@.len() as int) =~= vs@);
    }
    Ok(total)
}

/// Decode exactly `count` consecutive elements; on any element error the
/// source is rewound to `mark` and the error is propagated unchanged.
pub(crate) fn deserialise_elems<T: TorSerde>(
    source: &mut ByteSource,
    count: u64,
    mark: usize,
) -> (r: Result<Vec<T>, ErrorKind>)
    requires
        old(source).inv(),
        T::wire_decodable(),
        mark as int <= old(source).offset(),
    ensures
        final(source).inv(),
        final(source).all_bytes() == old(source).all_bytes(),
        match parse_elems::<T>(old(source)@, count as nat) {
            Ok(q) => {
                &&& r matches Ok(v) && v.deep_view() == q.0 && elems_ok(v@) && v@.len()
                    == count as int
                &&& final(source)@ == old(source)@.skip(q.1)
            },
            Err(e) => {
                &&& r matches Err(e2) && e2 == e
                &&& final(source)@ == old(source).all_bytes().skip(mark as int)
            },
        },
{
    let mut list: Vec<T> = Vec::new();
    let mut k: u64 = 0;
    proof {
        old(source).lemma_view();
        assert(list.deep_view() =~= Seq::<<T as DeepView>::V>::empty());
        assert(old(source)@.skip(0) =~= old(source)@);
        match parse_elems::<T>(old(source)@, count as nat) {
            Ok(q) => {
                assert(q.0 =~= list.deep_view() + q.0);
            },
            Err(_) => {},
        }
    }
    while k < count
        invariant
            k <= count,
            source.inv(),
            source.all_bytes() == old(source).all_bytes(),
            T::wire_decodable(),
            mark as int <= old(source).offset(),
            old(source).inv(),
            list@.len() == k,
            elems_ok(list@),
            source@.len() <= old(source)@.len(),
            source@ == old(source)@.skip(old(source)@.len() - source@.len()),
            match parse_elems::<T>(old(source)@, count as nat) {
                Ok(q) => {
                    &&& parse_elems::<T>(source@, (count - k) as nat) matches Ok(q2) && q.0
                        == list.deep_view() + q2.0 && q.1 == (old(source)@.len() - source@.len())
                        + q2.1
                },
                Err(e) => parse_elems::<T>(source@, (count - k) as nat) == Err::<
                    (Seq<T::V>, int),
                    ErrorKind,
                >(e),
            },
        decreases count - k,
    {
        let ghost pre = source@;
        let ghost prelist = list.deep_view();
        match T::bin_deserialise_from(source) {
            Ok(v) => {
                proof {
                    T::lemma_parse_len(pre);
                }
                list.push(v);
                k = k + 1;
                proof {
                    let n = pre.len() - source@.len();
                    assert(T::wire_parse(pre) is Ok);
                    let p = T::wire_parse(pre)->Ok_0;
                    assert(source@ == pre.skip(p.1));
                    assert(pre.skip(p.1).len() == pre.len() - p.1);
                    assert(p.1 == n);
                    assert(p.0 == v.deep_view());
                    assert(T::wire_parse(pre) == Ok::<(T::V, int), ErrorKind>((v.deep_view(), n)));
                    lemma_parse_elems_unfold::<T>(pre, (count - (k - 1)) as nat, v.deep_view(), n);
                    assert(list.deep_view() =~= prelist + seq![v.deep_view()]);
                    assert(source@ =~= old(source)@.skip(old(source)@.len() - source@.len()));
                    assert forall|i: int| 0 <= i < list@.len() implies (#[trigger] list@[i]).wire_ok() by {
                        if i < list@.len() - 1 {
                            assert(list@[i].wire_ok());
                        } else {
                            assert(list@[i] == v);
                        }
                    }
                    match parse_elems::<T>(old(source)@, count as nat) {
                        Ok(q) => {
                            let q3 = parse_elems::<T>(source@, (count - k) as nat)->Ok_0;
                            assert(q.0 =~= list.deep_view() + q3.0);
                        },
                        Err(_) => {},
                    }
                }
            },
            Err(e) => {
                proof {
                    source.lemma_view();
                    old(source).lemma_view();
                }
                source.rewind(mark);
                return Err(e);
            },
        }
    }
    proof {
        match parse_elems::<T>(old(source)@, count as nat) {
            Ok(q) => {
                assert(q.0 =~= list.deep_view());
            },
            Err(_) => {},
        }
    }
    Ok(list)
}

/// A homogeneous list preceded by an `N`-byte big-endian element count.
///
/// The legal prefix widths are 1, 2 and 4 bytes; a list whose element
/// count does not fit its prefix is rejected at encode time with
/// `LengthOverflow`.
#[derive(Debug, Clone, PartialEq, Eq)]
pub struct NLengthVector<T: TorSerde, const N: usize>(pub Vec<T>);

impl<T: TorSerde, const N: usize> DeepView for NLengthVector<T, N> {
    type V = Seq<T::V>;

    open spec fn deep_view(&self) -> Seq<T::V> {
        self.0.deep_view()
    }
}

impl<T: TorSerde, const N: usize> TorSerde for NLengthVector<T, N> {
    open spec fn wire_ok(&self) -> bool {
        &&& N == 1 || N == 2 || N == 4
        &&& elems_ok(self.0@)
    }

    open spec fn wire_fits(&self) -> bool {
        &&& (self.0@.len() as nat) < pow256(N as nat)
        &&& self.wire_bytes().len() <= 0xFFFF_FFFF
        &&& elems_fit(self.0@)
    }

    open spec fn wire_decodable() -> bool {
        (N == 1 || N == 2 || N == 4) && T::wire_decodable()
    }

    open spec fn wire_bytes(&self) -> Seq<u8> {
        be_bytes(self.0@.len() as nat, N as nat) + encode_elems(self.0@)
    }

    open spec fn wire_parse(s: Seq<u8>) -> Result<(Seq<T::V>, int), ErrorKind> {
        if s.len() < N as int {
            Err(ErrorKind::EndOfInput)
        } else {
            match parse_elems::<T>(s.skip(N as int), be_value(s.take(N as int))) {
                Ok(q) => Ok((q.0, N + q.1)),
                Err(e) => Err(e),
            }
        }
    }

    fn bin_serialise_into(&self, sink: &mut ByteSink) -> (r: Result<u32, ErrorKind>) {
        proof {
            lemma_pow256_values();
        }
        let max: u64 = if N == 1 {
            0xFF
        } else if N == 2 {
            0xFFFF
        } else {
            0xFFFF_FFFF
        };
        if self.0.len() as u64 > max {
            proof {
                assert(old(sink)@.is_prefix_of(sink@));
            }
            return Err(ErrorKind::LengthOverflow);
        }
        write_be_bytes(sink, self.0.len() as u128, N);
        proof {
            lemma_be_bytes_len(self.0@.len() as nat, N as nat);
        }
        let ghost mid = sink@;
        match serialise_elems(&self.0, N as u64, sink) {
            Ok(n) => {
                proof {
                    assert(sink@ =~= old(sink)@ + self.wire_bytes());
                }
                Ok(n as u32)
            },
            Err(e) => {
                proof {
                    assert(mid == mid.take(mid.len() as int));
                    assert(old(sink)@ =~= mid.take(old(sink)@.len() as int));
                    assert(mid.is_prefix_of(sink@));
                    assert(old(sink)@ =~= sink@.take(old(sink)@.len() as int));
                }
                Err(e)
            },
        }
    }

    fn bin_deserialise_from(source: &mut ByteSource) -> (r: Result<Self, ErrorKind>) {
        let mark = source.mark();
        proof {
            old(source).lemma_view();
        }
        let count128 = match read_be_bytes(source, N) {
            Ok(c) => c,
            Err(e) => {
                return Err(e);
            },
        };
        proof {
            lemma_be_value_bound(old(source)@.take(N as int));
            lemma_pow256_values();
            source.lemma_view();
        }
        let count: u64 = count128 as u64;
        let ghost mid = source@;
        match deserialise_elems::<T>(source, count, mark) {
            Ok(list) => {
                proof {
                    lemma_parse_elems_len::<T>(mid, count as nat);
                    assert(mid.skip(parse_elems::<T>(mid, count as nat)->Ok_0.1) =~= old(
                        source,
                    )@.skip(N + parse_elems::<T>(mid, count as nat)->Ok_0.1));
                }
                Ok(NLengthVector(list))
            },
            Err(e) => Err(e),
        }
    }

    fn serialised_length(&self) -> (n: u32) {
        let mut n: u32 = N as u32;
        let mut idx: usize = 0;
        proof {
            lemma_be_bytes_len(self.0@.len() as nat, N as nat);
            assert(self.0@.take(0) =~= Seq::<T>::empty());
        }
        while idx < self.0.len()
            invariant
                idx <= self.0@.len(),
                N == 1 || N == 2 || N == 4,
                elems_ok(self.0@),
                elems_fit(self.0@),
                self.wire_bytes().len() <= 0xFFFF_FFFF,
                self.wire_bytes().len() == N + encode_elems(self.0@).len(),
                n as int == N + encode_elems(self.0@.take(idx as int)).len(),
            decreases self.0@.len() - idx,
        {
            proof {
                lemma_encode_elems_snoc(self.0@, idx as int);
                lemma_encode_elems_split(self.0@, idx as int + 1);
            }
            let m = self.0[idx].serialised_length();
            n = n + m;
            idx = idx + 1;
        }
        proof {
            assert(self.0@.take(self.0@.len() as int) =~= self.0@);
        }
        n
    }

    proof fn lemma_encode_parse(&self, rest: Seq<u8>) {
        let vs = self.0@;
        let count = vs.len() as nat;
        lemma_be_bytes_len(count, N as nat);
        lemma_pow256_values();
        let s = self.wire_bytes() + rest;
        assert(s.take(N as int) =~= be_bytes(count, N as nat));
        assert(s.skip(N as int) =~= encode_elems(vs) + rest);
        lemma_be_value_of_be_bytes(count, N as nat);
        lemma_parse_encode_elems::<T>(vs, rest);
        assert(deep_views(vs) =~= self.deep_view());
    }

    proof fn lemma_parse_len(s: Seq<u8>) {
        if s.len() >= N as int {
            lemma_parse_elems_len::<T>(s.skip(N as int), be_value(s.take(N as int)));
        }
    }
}

impl<T: TorSerde, const N: usize> From<Vec<T>> for NLengthVector<T, N> {
    fn from(v: Vec<T>) -> Self {
        NLengthVector(v)
    }
}

impl<T: TorSerde, const N: usize> vstd::std_specs::convert::FromSpecImpl<Vec<T>> for NLengthVector<T, N> {
    open spec fn obeys_from_spec() -> bool {
        true
    }

    open spec fn from_spec(v: Vec<T>) -> Self {
        NLengthVector(v)
    }
}

impl<T: TorSerde, const N: usize> From<NLengthVector<T, N>> for Vec<T> {
    fn from(v: NLengthVector<T, N>) -> Self {
        v.0
    }
}

impl<T: TorSerde, const N: usize> vstd::std_specs::convert::FromSpecImpl<NLengthVector<T, N>> for Vec<T> {
    open spec fn obeys_from_spec() -> bool {
        true
    }

    open spec fn from_spec(v: NLengthVector<T, N>) -> Self {
        v.0
    }
}

/// Two bytes of image per 16-bit element.
pub proof fn lemma_u16_elems_len(vs: Seq<u16>)
    ensures
        encode_elems(vs).len() == 2 * vs.len(),
    decreases vs.len(),
{
    if vs.len() > 0 {
        lemma_be_bytes_len(vs[0] as nat, 2);
        lemma_u16_elems_len(vs.skip(1));
    }
}

/// The payload of the versions cell: a list of 16-bit version numbers.
///
/// The canonical, self-describing form carries a 16-bit byte-length prefix
/// equal to twice the element count; the codec contract's operations use
/// that form.  The legacy, externally framed form has no prefix of its
/// own: the element count comes from the enclosing message's framing,
/// through `bin_serialise_elements_into` and
/// `bin_deserialise_elements_from`.
#[derive(Debug, Clone, PartialEq, Eq)]
pub struct VersionsVector(pub Vec<u16>);

impl DeepView for VersionsVector {
    type V = Seq<u16>;

    open spec fn deep_view(&self) -> Seq<u16> {
        self.0.deep_view()
    }
}

impl TorSerde for VersionsVector {
    open spec fn wire_ok(&self) -> bool {
        true
    }

    open spec fn wire_fits(&self) -> bool {
        self.0@.len() <= 0x7FFF
    }

    open spec fn wire_decodable() -> bool {
        true
    }

    open spec fn wire_bytes(&self) -> Seq<u8> {
        be_bytes((2 * self.0@.len()) as nat, 2) + encode_elems(self.0@)
    }

    /// An odd byte-length prefix denotes the floor of half of it, as the
    /// wire format's consumers read it; the odd final byte stays in the
    /// source.
    open spec fn wire_parse(s: Seq<u8>) -> Result<(Seq<u16>, int), ErrorKind> {
        if s.len() < 2 {
            Err(ErrorKind::EndOfInput)
        } else {
            match parse_elems::<u16>(s.skip(2), be_value(s.take(2)) / 2) {
                Ok(q) => Ok((q.0, 2 + q.1)),
                Err(e) => Err(e),
            }
        }
    }

    fn bin_serialise_into(&self, sink: &mut ByteSink) -> (r: Result<u32, ErrorKind>) {
        if self.0.len() > 0x7FFF {
            proof {
                assert(old(sink)@.is_prefix_of(sink@));
            }
            return Err(ErrorKind::LengthOverflow);
        }
        write_be_bytes(sink, (self.0.len() * 2) as u128, 2);
        proof {
            lemma_be_bytes_len((2 * self.0@.len()) as nat, 2);
            lemma_u16_elems_len(self.0@);
        }
        match serialise_elems(&self.0, 2u64, sink) {
            Ok(n) => {
                proof {
                    assert(sink@ =~= old(sink)@ + self.wire_bytes());
                }
                Ok(n as u32)
            },
            Err(e) => {
                proof {
                    assert(false);
                }
                Err(e)
            },
        }
    }

    fn bin_deserialise_from(source: &mut ByteSource) -> (r: Result<Self, ErrorKind>) {
        let mark = source.mark();
        proof {
            old(source).lemma_view();
        }
        let bl = match read_be_bytes(source, 2) {
            Ok(c) => c,
            Err(e) => {
                return Err(e);
            },
        };
        proof {
            lemma_be_value_bound(old(source)@.take(2));
            lemma_pow256_values();
            source.lemma_view();
        }
        let count: u64 = (bl / 2) as u64;
        let ghost mid = source@;
        match deserialise_elems::<u16>(source, count, mark) {
            Ok(list) => {
                proof {
                    lemma_parse_elems_len::<u16>(mid, count as nat);
                    assert(mid.skip(parse_elems::<u16>(mid, count as nat)->Ok_0.1) =~= old(
                        source,
                    )@.skip(2 + parse_elems::<u16>(mid, count as nat)->Ok_0.1));
                }
                Ok(VersionsVector(list))
            },
            Err(e) => Err(e),
        }
    }

    fn serialised_length(&self) -> (n: u32) {
        proof {
            lemma_u16_elems_len(self.0@);
            lemma_be_bytes_len((2 * self.0@.len()) as nat, 2);
        }
        2 + (self.0.len() as u32) * 2
    }

    proof fn lemma_encode_parse(&self, rest: Seq<u8>) {
        let vs = self.0@;
        lemma_be_bytes_len((2 * vs.len()) as nat, 2);
        lemma_pow256_values();
        let s = self.wire_bytes() + rest;
        assert(s.take(2) =~= be_bytes((2 * vs.len()) as nat, 2));
        assert(s.skip(2) =~= encode_elems(vs) + rest);
        lemma_be_value_of_be_bytes((2 * vs.len()) as nat, 2);
        lemma_parse_encode_elems::<u16>(vs, rest);
        lemma_u16_elems_len(vs);
        assert(deep_views(vs) =~= self.deep_view());
    }

    proof fn lemma_parse_len(s: Seq<u8>) {
        if s.len() >= 2 {
            lemma_parse_elems_len::<u16>(s.skip(2), be_value(s.take(2)) / 2);
        }
    }
}

impl VersionsVector {
    /// Externally framed form: encode the elements alone, with no
    /// byte-length prefix; the enclosing message carries the length.
    pub fn bin_serialise_elements_into(&self, sink: &mut ByteSink) -> (r: Result<u32, ErrorKind>)
        ensures
            match r {
                Ok(n) => {
                    &&& n as int == encode_elems(self.0@).len()
                    &&& n as int == 2 * self.0@.len()
                    &&& final(sink)@ == old(sink)@ + encode_elems(self.0@)
                },
                Err(e) => {
                    &&& e == ErrorKind::LengthOverflow
                    &&& 2 * self.0@.len() > 0xFFFF_FFFF
                    &&& old(sink)@.is_prefix_of(final(sink)@)
                },
            },
    {
        proof {
            lemma_u16_elems_len(self.0@);
        }
        match serialise_elems(&self.0, 0u64, sink) {
            Ok(n) => Ok(n as u32),
            Err(e) => Err(e),
        }
    }

    /// Externally framed form: decode exactly `count` elements; the count
    /// comes from the enclosing message's framing.
    pub fn bin_deserialise_elements_from(source: &mut ByteSource, count: u32) -> (r: Result<
        VersionsVector,
        ErrorKind,
    >)
        requires
            old(source).inv(),
        ensures
            final(source).inv(),
            final(source).all_bytes() == old(source).all_bytes(),
            match parse_elems::<u16>(old(source)@, count as nat) {
                Ok(q) => {
                    &&& r matches Ok(v) && v.deep_view() == q.0 && v.0@.len() == count as int
                    &&& final(source)@ == old(source)@.skip(q.1)
                },
                Err(e) => {
                    &&& r matches Err(e2) && e2 == e
                    &&& final(source)@ == old(source)@
                },
            },
    {
        let mark = source.mark();
        proof {
            old(source).lemma_view();
        }
        match deserialise_elems::<u16>(source, count as u64, mark) {
            Ok(list) => Ok(VersionsVector(list)),
            Err(e) => Err(e),
        }
    }

    /// The externally framed size: the elements alone, two bytes each.
    pub fn serialised_elements_length(&self) -> (n: u32)
        requires
            2 * self.0@.len() <= 0xFFFF_FFFF,
        ensures
            n as int == encode_elems(self.0@).len(),
            n as int == 2 * self.0@.len(),
    {
        proof {
            lemma_u16_elems_len(self.0@);
        }
        (self.0.len() as u32) * 2
    }
}

impl From<Vec<u16>> for VersionsVector {
    fn from(v: Vec<u16>) -> Self {
        VersionsVector(v)
    }
}

impl vstd::std_specs::convert::FromSpecImpl<Vec<u16>> for VersionsVector {
    open spec fn obeys_from_spec() -> bool {
        true
    }

    open spec fn from_spec(v: Vec<u16>) -> Self {
        VersionsVector(v)
    }
}

impl From<VersionsVector> for Vec<u16> {
    fn from(v: VersionsVector) -> Self {
        v.0
    }
}

impl vstd::std_specs::convert::FromSpecImpl<VersionsVector> for Vec<u16> {
    open spec fn obeys_from_spec() -> bool {
        true
    }

    open spec fn from_spec(v: VersionsVector) -> Self {
        v.0
    }
}

} // verus!

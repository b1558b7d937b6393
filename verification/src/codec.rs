//! The codec contract and the fixed-width scalar codecs.
//!
//! Every codec implements the same three operations: encode a value into a
//! byte sink, decode a value from a byte source, and measure the encoded
//! size.  The trait states, once and for all implementors, that the size
//! always equals the number of bytes encoding produces, and that decoding
//! an encoded value recovers it exactly.

use vstd::prelude::*;

use crate::bytes::{ByteSink, ByteSource};
use crate::wire::{
    be_bytes, be_value, lemma_be_bytes_index, lemma_be_bytes_len, lemma_be_value_bound,
    lemma_be_value_of_be_bytes, lemma_pow256_pos, lemma_pow256_values, pow256,
};
use crate::ErrorKind;
use vstd::arithmetic::div_mod::lemma_div_denominator;
use vstd::arithmetic::mul::lemma_mul_inequality;

verus! {

/// The uniform codec contract of the Tor wire format.
///
/// `wire_bytes` is the exact byte image of a value and `wire_parse` the
/// exact meaning of a byte sequence; the executable operations are verified
/// against them, and the two proof obligations tie them together: parsing
/// an image recovers the value (round trip), and a successful parse
/// consumes exactly the image of the value it returns.
pub trait TorSerde: Sized + DeepView {
    /// The structural precondition of encoding.  It is not checked at run
    /// time: a value that fails it (a wire string holding its own sentinel
    /// byte) has no well-defined image, and constructors keep such values
    /// out.
    spec fn wire_ok(&self) -> bool;

    /// Whether the value fits its own framing: its element count fits the
    /// length prefix and its total image fits the `u32` byte counts.
    /// Encoding rejects a value that does not, with `LengthOverflow`.
    spec fn wire_fits(&self) -> bool;

    /// Whether values of this type can be decoded at all (for lists: the
    /// prefix width is one of the legal widths).
    spec fn wire_decodable() -> bool;

    /// The exact byte image of the value.
    spec fn wire_bytes(&self) -> Seq<u8>;

    /// The meaning of a byte sequence: the model (the `DeepView`) of the
    /// decoded value and the number of bytes consumed, or the exact error
    /// that decoding reports.
    spec fn wire_parse(s: Seq<u8>) -> Result<(Self::V, int), ErrorKind>;

    /// Write the byte image of the value to the sink and return the number
    /// of bytes written.
    fn bin_serialise_into(&self, sink: &mut ByteSink) -> (r: Result<u32, ErrorKind>)
        requires
            self.wire_ok(),
        ensures
            match r {
                Ok(n) => {
                    &&& self.wire_fits()
                    &&& n as int == self.wire_bytes().len()
                    &&& final(sink)@ == old(sink)@ + self.wire_bytes()
                },
                Err(e) => {
                    &&& !self.wire_fits()
                    &&& e == ErrorKind::LengthOverflow
                    &&& old(sink)@.is_prefix_of(final(sink)@)
                },
            },
    ;

    /// Read one value from the source.  On success exactly the bytes of the
    /// value's image are consumed; on failure the source is left where it
    /// was.
    fn bin_deserialise_from(source: &mut ByteSource) -> (r: Result<Self, ErrorKind>)
        requires
            old(source).inv(),
            Self::wire_decodable(),
        ensures
            final(source).inv(),
            final(source).all_bytes() == old(source).all_bytes(),
            match Self::wire_parse(old(source)@) {
                Ok(p) => {
                    &&& r matches Ok(v) && v.deep_view() == p.0 && v.wire_ok()
                    &&& final(source)@ == old(source)@.skip(p.1)
                },
                Err(e) => {
                    &&& r matches Err(e2) && e2 == e
                    &&& final(source)@ == old(source)@
                },
            },
    ;

    /// The length of the byte image, in bytes.  It always equals the count
    /// that `bin_serialise_into` returns for the same value.
    fn serialised_length(&self) -> (n: u32)
        requires
            self.wire_ok(),
            self.wire_fits(),
        ensures
            n as int == self.wire_bytes().len(),
    ;

    /// Round trip: the byte image of a value, followed by anything at all,
    /// parses back to exactly that value, consuming exactly the image.
    proof fn lemma_encode_parse(&self, rest: Seq<u8>)
        requires
            self.wire_ok(),
            self.wire_fits(),
            Self::wire_decodable(),
        ensures
            Self::wire_parse(self.wire_bytes() + rest) matches Ok(p) && p.0 == self.deep_view()
                && p.1 == self.wire_bytes().len(),
    ;

    /// A successful parse never consumes more bytes than the sequence
    /// holds.
    proof fn lemma_parse_len(s: Seq<u8>)
        requires
            Self::wire_decodable(),
        ensures
            Self::wire_parse(s) matches Ok(p) ==> 0 <= p.1 <= s.len(),
    ;
}

/// Write the low `width` bytes of `v` to the sink, most significant first.
pub fn write_be_bytes(sink: &mut ByteSink, v: u128, width: usize)
    requires
        width <= 16,
    ensures
        final(sink)@ == old(sink)@ + be_bytes(v as nat, width as nat),
{
    // Low-to-high byte extraction first: tmp[k] is byte k counted from the
    // least significant end.
    let mut tmp: Vec<u8> = Vec::new();
    let mut x: u128 = v;
    let mut i: usize = 0;
    proof {
        vstd::arithmetic::div_mod::lemma_div_basics_2(v as int);
    }
    while i < width
        invariant
            i <= width,
            width <= 16,
            tmp@.len() == i,
            x as nat == (v as nat) / pow256(i as nat),
            forall|k: int|
                0 <= k < i ==> tmp@[k] == (((v as nat) / pow256(k as nat)) % 256) as u8,
        decreases width - i,
    {
        proof {
            lemma_pow256_pos(i as nat);
            lemma_div_denominator(v as int, pow256(i as nat) as int, 256);
        }
        tmp.push((x % 256) as u8);
        x = x / 256;
        i = i + 1;
    }
    proof {
        lemma_be_bytes_len(v as nat, width as nat);
    }
    let ghost img = be_bytes(v as nat, width as nat);
    let mut j: usize = 0;
    while j < width
        invariant
            j <= width,
            width <= 16,
            tmp@.len() == width,
            forall|k: int|
                0 <= k < width ==> tmp@[k] == (((v as nat) / pow256(k as nat)) % 256) as u8,
            img == be_bytes(v as nat, width as nat),
            img.len() == width,
            sink@ == old(sink)@ + img.take(j as int),
        decreases width - j,
    {
        proof {
            lemma_be_bytes_index(v as nat, width as nat, j as int);
            assert(img.take(j as int + 1) =~= img.take(j as int) + seq![img[j as int]]);
        }
        sink.write_byte(tmp[width - 1 - j]);
        j = j + 1;
    }
    proof {
        assert(img.take(width as int) =~= img);
    }
}

/// Read `width` bytes from the source and return the value they denote in
/// big-endian order, or `EndOfInput` if fewer bytes remain.
pub fn read_be_bytes(source: &mut ByteSource, width: usize) -> (r: Result<u128, ErrorKind>)
    requires
        old(source).inv(),
        width <= 16,
    ensures
        final(source).inv(),
        final(source).all_bytes() == old(source).all_bytes(),
        old(source)@.len() >= width ==> {
            &&& r matches Ok(v) && v as nat == be_value(old(source)@.take(width as int))
            &&& final(source)@ == old(source)@.skip(width as int)
        },
        old(source)@.len() < width ==> {
            &&& r matches Err(e) && e == ErrorKind::EndOfInput
            &&& final(source)@ == old(source)@
        },
{
    if source.remaining() < width {
        return Err(ErrorKind::EndOfInput);
    }
    let mut acc: u128 = 0;
    let mut i: usize = 0;
    proof {
        assert(old(source)@.take(0) =~= Seq::<u8>::empty());
    }
    while i < width
        invariant
            i <= width,
            width <= 16,
            source.inv(),
            source.all_bytes() == old(source).all_bytes(),
            old(source)@.len() >= width,
            source@ == old(source)@.skip(i as int),
            acc as nat == be_value(old(source)@.take(i as int)),
            (acc as nat) < pow256(i as nat),
        decreases width - i,
    {
        proof {
            assert(source@.len() == old(source)@.len() - i);
        }
        let b = match source.read_byte() {
            Ok(b) => b,
            Err(e) => {
                proof {
                    assert(false);
                }
                return Err(e);
            },
        };
        proof {
            assert(b == old(source)@[i as int]);
            lemma_pow256_values();
            lemma_pow256_mono(i as nat + 1, 16);
            lemma_mul_inequality(acc as int, pow256(i as nat) as int - 1, 256);
            let t1 = old(source)@.take(i as int + 1);
            assert(t1.drop_last() =~= old(source)@.take(i as int));
            assert(t1.last() == b);
            assert(be_value(t1) == (acc as nat) * 256 + (b as nat));
            lemma_be_value_bound(t1);
            assert(old(source)@.skip(i as int).skip(1) =~= old(source)@.skip(i as int + 1));
        }
        acc = acc * 256 + (b as u128);
        i = i + 1;
    }
    proof {
        assert(old(source)@.take(width as int) == old(source)@.take(i as int));
    }
    Ok(acc)
}

/// Monotonicity of the field capacity in the field width.
pub proof fn lemma_pow256_mono(a: nat, b: nat)
    requires
        a <= b,
    ensures
        pow256(a) <= pow256(b),
    decreases b,
{
    if a < b {
        lemma_pow256_mono(a, (b - 1) as nat);
        lemma_pow256_pos((b - 1) as nat);
    }
}

impl TorSerde for u16 {
    open spec fn wire_ok(&self) -> bool {
        true
    }

    open spec fn wire_fits(&self) -> bool {
        true
    }

    open spec fn wire_decodable() -> bool {
        true
    }

    open spec fn wire_bytes(&self) -> Seq<u8> {
        be_bytes(*self as nat, 2)
    }

    open spec fn wire_parse(s: Seq<u8>) -> Result<(u16, int), ErrorKind> {
        if s.len() < 2 {
            Err(ErrorKind::EndOfInput)
        } else {
            Ok(((be_value(s.take(2)) as u16), 2))
        }
    }

    fn bin_serialise_into(&self, sink: &mut ByteSink) -> (r: Result<u32, ErrorKind>) {
        write_be_bytes(sink, *self as u128, 2);
        proof {
            lemma_be_bytes_len(*self as nat, 2);
        }
        Ok(2)
    }

    fn bin_deserialise_from(source: &mut ByteSource) -> (r: Result<Self, ErrorKind>) {
        match read_be_bytes(source, 2) {
            Ok(v) => {
                proof {
                    lemma_be_value_bound(old(source)@.take(2));
                    lemma_pow256_values();
                }
                Ok(v as u16)
            },
            Err(e) => Err(e),
        }
    }

    fn serialised_length(&self) -> (n: u32) {
        proof {
            lemma_be_bytes_len(*self as nat, 2);
        }
        2
    }

    proof fn lemma_encode_parse(&self, rest: Seq<u8>) {
        lemma_be_bytes_len(*self as nat, 2);
        lemma_pow256_values();
        let s = self.wire_bytes() + rest;
        assert(s.take(2) =~= self.wire_bytes());
        lemma_be_value_of_be_bytes(*self as nat, 2);
    }

    proof fn lemma_parse_len(s: Seq<u8>) {
    }
}

impl TorSerde for u8 {
    open spec fn wire_ok(&self) -> bool {
        true
    }

    open spec fn wire_fits(&self) -> bool {
        true
    }

    open spec fn wire_decodable() -> bool {
        true
    }

    open spec fn wire_bytes(&self) -> Seq<u8> {
        be_bytes(*self as nat, 1)
    }

    open spec fn wire_parse(s: Seq<u8>) -> Result<(u8, int), ErrorKind> {
        if s.len() < 1 {
            Err(ErrorKind::EndOfInput)
        } else {
            Ok(((be_value(s.take(1)) as u8), 1))
        }
    }

    fn bin_serialise_into(&self, sink: &mut ByteSink) -> (r: Result<u32, ErrorKind>) {
        write_be_bytes(sink, *self as u128, 1);
        proof {
            lemma_be_bytes_len(*self as nat, 1);
        }
        Ok(1)
    }

    fn bin_deserialise_from(source: &mut ByteSource) -> (r: Result<Self, ErrorKind>) {
        match read_be_bytes(source, 1) {
            Ok(v) => {
                proof {
                    lemma_be_value_bound(old(source)@.take(1));
                    lemma_pow256_values();
                }
                Ok(v as u8)
            },
            Err(e) => Err(e),
        }
    }

    fn serialised_length(&self) -> (n: u32) {
        proof {
            lemma_be_bytes_len(*self as nat, 1);
        }
        1
    }

    proof fn lemma_encode_parse(&self, rest: Seq<u8>) {
        lemma_be_bytes_len(*self as nat, 1);
        lemma_pow256_values();
        let s = self.wire_bytes() + rest;
        assert(s.take(1) =~= self.wire_bytes());
        lemma_be_value_of_be_bytes(*self as nat, 1);
    }

    proof fn lemma_parse_len(s: Seq<u8>) {
    }
}

impl TorSerde for u32 {
    open spec fn wire_ok(&self) -> bool {
        true
    }

    open spec fn wire_fits(&self) -> bool {
        true
    }

    open spec fn wire_decodable() -> bool {
        true
    }

    open spec fn wire_bytes(&self) -> Seq<u8> {
        be_bytes(*self as nat, 4)
    }

    open spec fn wire_parse(s: Seq<u8>) -> Result<(u32, int), ErrorKind> {
        if s.len() < 4 {
            Err(ErrorKind::EndOfInput)
        } else {
            Ok(((be_value(s.take(4)) as u32), 4))
        }
    }

    fn bin_serialise_into(&self, sink: &mut ByteSink) -> (r: Result<u32, ErrorKind>) {
        write_be_bytes(sink, *self as u128, 4);
        proof {
            lemma_be_bytes_len(*self as nat, 4);
        }
        Ok(4)
    }

    fn bin_deserialise_from(source: &mut ByteSource) -> (r: Result<Self, ErrorKind>) {
        match read_be_bytes(source, 4) {
            Ok(v) => {
                proof {
                    lemma_be_value_bound(old(source)@.take(4));
                    lemma_pow256_values();
                }
                Ok(v as u32)
            },
            Err(e) => Err(e),
        }
    }

    fn serialised_length(&self) -> (n: u32) {
        proof {
            lemma_be_bytes_len(*self as nat, 4);
        }
        4
    }

    proof fn lemma_encode_parse(&self, rest: Seq<u8>) {
        lemma_be_bytes_len(*self as nat, 4);
        lemma_pow256_values();
        let s = self.wire_bytes() + rest;
        assert(s.take(4) =~= self.wire_bytes());
        lemma_be_value_of_be_bytes(*self as nat, 4);
    }

    proof fn lemma_parse_len(s: Seq<u8>) {
    }
}

impl TorSerde for u64 {
    open spec fn wire_ok(&self) -> bool {
        true
    }

    open spec fn wire_fits(&self) -> bool {
        true
    }

    open spec fn wire_decodable() -> bool {
        true
    }

    open spec fn wire_bytes(&self) -> Seq<u8> {
        be_bytes(*self as nat, 8)
    }

    open spec fn wire_parse(s: Seq<u8>) -> Result<(u64, int), ErrorKind> {
        if s.len() < 8 {
            Err(ErrorKind::EndOfInput)
        } else {
            Ok(((be_value(s.take(8)) as u64), 8))
        }
    }

    fn bin_serialise_into(&self, sink: &mut ByteSink) -> (r: Result<u32, ErrorKind>) {
        write_be_bytes(sink, *self as u128, 8);
        proof {
            lemma_be_bytes_len(*self as nat, 8);
        }
        Ok(8)
    }

    fn bin_deserialise_from(source: &mut ByteSource) -> (r: Result<Self, ErrorKind>) {
        match read_be_bytes(source, 8) {
            Ok(v) => {
                proof {
                    lemma_be_value_bound(old(source)@.take(8));
                    lemma_pow256_values();
                }
                Ok(v as u64)
            },
            Err(e) => Err(e),
        }
    }

    fn serialised_length(&self) -> (n: u32) {
        proof {
            lemma_be_bytes_len(*self as nat, 8);
        }
        8
    }

    proof fn lemma_encode_parse(&self, rest: Seq<u8>) {
        lemma_be_bytes_len(*self as nat, 8);
        lemma_pow256_values();
        let s = self.wire_bytes() + rest;
        assert(s.take(8) =~= self.wire_bytes());
        lemma_be_value_of_be_bytes(*self as nat, 8);
    }

    proof fn lemma_parse_len(s: Seq<u8>) {
    }
}

impl TorSerde for u128 {
    open spec fn wire_ok(&self) -> bool {
        true
    }

    open spec fn wire_fits(&self) -> bool {
        true
    }

    open spec fn wire_decodable() -> bool {
        true
    }

    open spec fn wire_bytes(&self) -> Seq<u8> {
        be_bytes(*self as nat, 16)
    }

    open spec fn wire_parse(s: Seq<u8>) -> Result<(u128, int), ErrorKind> {
        if s.len() < 16 {
            Err(ErrorKind::EndOfInput)
        } else {
            Ok(((be_value(s.take(16)) as u128), 16))
        }
    }

    fn bin_serialise_into(&self, sink: &mut ByteSink) -> (r: Result<u32, ErrorKind>) {
        write_be_bytes(sink, *self as u128, 16);
        proof {
            lemma_be_bytes_len(*self as nat, 16);
        }
        Ok(16)
    }

    fn bin_deserialise_from(source: &mut ByteSource) -> (r: Result<Self, ErrorKind>) {
        match read_be_bytes(source, 16) {
            Ok(v) => {
                proof {
                    lemma_be_value_bound(old(source)@.take(16));
                    lemma_pow256_values();
                }
                Ok(v as u128)
            },
            Err(e) => Err(e),
        }
    }

    fn serialised_length(&self) -> (n: u32) {
        proof {
            lemma_be_bytes_len(*self as nat, 16);
        }
        16
    }

    proof fn lemma_encode_parse(&self, rest: Seq<u8>) {
        lemma_be_bytes_len(*self as nat, 16);
        lemma_pow256_values();
        let s = self.wire_bytes() + rest;
        assert(s.take(16) =~= self.wire_bytes());
        lemma_be_value_of_be_bytes(*self as nat, 16);
    }

    proof fn lemma_parse_len(s: Seq<u8>) {
    }
}

impl<const N: usize> TorSerde for [u8; N] {
    open spec fn wire_ok(&self) -> bool {
        true
    }

    open spec fn wire_fits(&self) -> bool {
        N <= 0xFFFF_FFFF
    }

    open spec fn wire_decodable() -> bool {
        true
    }

    open spec fn wire_bytes(&self) -> Seq<u8> {
        self@
    }

    open spec fn wire_parse(s: Seq<u8>) -> Result<(Seq<u8>, int), ErrorKind> {
        if s.len() < N as int {
            Err(ErrorKind::EndOfInput)
        } else {
            Ok((s.take(N as int), N as int))
        }
    }

    fn bin_serialise_into(&self, sink: &mut ByteSink) -> (r: Result<u32, ErrorKind>) {
        if (N as u64) > 0xFFFF_FFFFu64 {
            proof {
                assert(old(sink)@.is_prefix_of(sink@));
            }
            return Err(ErrorKind::LengthOverflow);
        }
        let mut i: usize = 0;
        proof {
            assert(sink@ =~= old(sink)@ + self@.take(0));
        }
        while i < N
            invariant
                i <= N,
                self@.len() == N,
                sink@ == old(sink)@ + self@.take(i as int),
            decreases N - i,
        {
            proof {
                assert(self@.take(i as int + 1) =~= self@.take(i as int) + seq![self@[i as int]]);
            }
            sink.write_byte(self[i]);
            i = i + 1;
        }
        proof {
            assert(self@.take(N as int) =~= self@);
        }
        Ok(N as u32)
    }

    fn bin_deserialise_from(source: &mut ByteSource) -> (r: Result<Self, ErrorKind>) {
        if source.remaining() < N {
            return Err(ErrorKind::EndOfInput);
        }
        let mut arr: [u8; N] = [0u8; N];
        let mut i: usize = 0;
        while i < N
            invariant
                i <= N,
                source.inv(),
                source.all_bytes() == old(source).all_bytes(),
                old(source)@.len() >= N,
                source@ == old(source)@.skip(i as int),
                arr@.len() == N,
                forall|k: int| 0 <= k < i ==> arr@[k] == old(source)@[k],
            decreases N - i,
        {
            let b = match source.read_byte() {
                Ok(b) => b,
                Err(e) => {
                    proof {
                        assert(false);
                    }
                    return Err(e);
                },
            };
            arr[i] = b;
            proof {
                assert(old(source)@.skip(i as int).skip(1) =~= old(source)@.skip(i as int + 1));
            }
            i = i + 1;
        }
        proof {
            assert(arr.deep_view() =~= old(source)@.take(N as int));
        }
        Ok(arr)
    }

    fn serialised_length(&self) -> (n: u32) {
        N as u32
    }

    proof fn lemma_encode_parse(&self, rest: Seq<u8>) {
        let s = self@ + rest;
        assert(s.take(N as int) =~= self@);
        assert(self.deep_view() =~= self@);
    }

    proof fn lemma_parse_len(s: Seq<u8>) {
    }
}

} // verus!

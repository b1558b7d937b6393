//! The wire IP address codec: a tagged union over the two fixed-size
//! address families.
//!
//! On the wire an address is a 1-byte family tag (4 or 6), a 1-byte
//! declared length (4 or 16, redundant with the tag but mandated by the
//! wire format), then the address bytes.  Decoding dispatches on the tag;
//! a declared length that disagrees with the tag is rejected with
//! `MismatchedLength`, and any other tag value with `BadDiscriminant`.

use vstd::prelude::*;

use crate::bytes::{ByteSink, ByteSource};
use crate::codec::{read_be_bytes, write_be_bytes, TorSerde};
use crate::wire::{
    be_bytes, be_value, lemma_be_bytes_len, lemma_be_value_bound, lemma_be_value_of_be_bytes,
    lemma_pow256_values,
};
use crate::ErrorKind;

verus! {

/// An IPv4 address: four octets held as one 32-bit value, highest octet
/// first.
#[derive(Debug, Clone, Copy, PartialEq, Eq)]
pub struct Ipv4Address {
    pub bits: u32,
}

impl Ipv4Address {
    /// The address `a.b.c.d`.
    pub fn new(a: u8, b: u8, c: u8, d: u8) -> (r: Ipv4Address)
        ensures
            r.bits == (a as u32) * 0x100_0000 + (b as u32) * 0x1_0000 + (c as u32) * 0x100 + (
            d as u32),
    {
        Ipv4Address {
            bits: (a as u32) * 0x100_0000 + (b as u32) * 0x1_0000 + (c as u32) * 0x100 + (d as u32),
        }
    }
}

/// An IPv6 address: sixteen octets held as one 128-bit value, highest
/// octet first.
#[derive(Debug, Clone, Copy, PartialEq, Eq)]
pub struct Ipv6Address {
    pub bits: u128,
}

impl Ipv6Address {
    /// The address whose sixteen octets are the big-endian bytes of
    /// `bits`.
    pub fn new(bits: u128) -> (r: Ipv6Address)
        ensures
            r.bits == bits,
    {
        Ipv6Address { bits }
    }
}

/// A wire IP address of either family.
#[derive(Debug, Clone, Copy, PartialEq, Eq)]
pub enum WireIpAddress {
    V4(Ipv4Address),
    V6(Ipv6Address),
}

impl DeepView for Ipv4Address {
    type V = Ipv4Address;

    open spec fn deep_view(&self) -> Ipv4Address {
        *self
    }
}

impl DeepView for Ipv6Address {
    type V = Ipv6Address;

    open spec fn deep_view(&self) -> Ipv6Address {
        *self
    }
}

impl DeepView for WireIpAddress {
    type V = WireIpAddress;

    open spec fn deep_view(&self) -> WireIpAddress {
        *self
    }
}

/// The bare four address octets, with no tag and no length byte.
impl TorSerde for Ipv4Address {
    open spec fn wire_ok(&self) -> bool {
        true
    }

    open spec fn wire_fits(&self) -> bool {
        true
    }

    open spec fn wire_decodable() -> bool {
        true
    }

    open spec fn wire_bytes(&self) -> Seq<u8> {
        be_bytes(self.bits as nat, 4)
    }

    open spec fn wire_parse(s: Seq<u8>) -> Result<(Ipv4Address, int), ErrorKind> {
        if s.len() < 4 {
            Err(ErrorKind::EndOfInput)
        } else {
            Ok((Ipv4Address { bits: be_value(s.take(4)) as u32 }, 4))
        }
    }

    fn bin_serialise_into(&self, sink: &mut ByteSink) -> (r: Result<u32, ErrorKind>) {
        write_be_bytes(sink, self.bits as u128, 4);
        proof {
            lemma_be_bytes_len(self.bits as nat, 4);
        }
        Ok(4)
    }

    fn bin_deserialise_from(source: &mut ByteSource) -> (r: Result<Self, ErrorKind>) {
        match read_be_bytes(source, 4) {
            Ok(v) => {
                proof {
                    lemma_be_value_bound(old(source)@.take(4));
                    lemma_pow256_values();
                }
                Ok(Ipv4Address { bits: v as u32 })
            },
            Err(e) => Err(e),
        }
    }

    fn serialised_length(&self) -> (n: u32) {
        proof {
            lemma_be_bytes_len(self.bits as nat, 4);
        }
        4
    }

    proof fn lemma_encode_parse(&self, rest: Seq<u8>) {
        lemma_be_bytes_len(self.bits as nat, 4);
        lemma_pow256_values();
        let s = self.wire_bytes() + rest;
        assert(s.take(4) =~= self.wire_bytes());
        lemma_be_value_of_be_bytes(self.bits as nat, 4);
    }

    proof fn lemma_parse_len(s: Seq<u8>) {
    }
}

/// The bare sixteen address octets, with no tag and no length byte.
impl TorSerde for Ipv6Address {
    open spec fn wire_ok(&self) -> bool {
        true
    }

    open spec fn wire_fits(&self) -> bool {
        true
    }

    open spec fn wire_decodable() -> bool {
        true
    }

    open spec fn wire_bytes(&self) -> Seq<u8> {
        be_bytes(self.bits as nat, 16)
    }

    open spec fn wire_parse(s: Seq<u8>) -> Result<(Ipv6Address, int), ErrorKind> {
        if s.len() < 16 {
            Err(ErrorKind::EndOfInput)
        } else {
            Ok((Ipv6Address { bits: be_value(s.take(16)) as u128 }, 16))
        }
    }

    fn bin_serialise_into(&self, sink: &mut ByteSink) -> (r: Result<u32, ErrorKind>) {
        write_be_bytes(sink, self.bits, 16);
        proof {
            lemma_be_bytes_len(self.bits as nat, 16);
        }
        Ok(16)
    }

    fn bin_deserialise_from(source: &mut ByteSource) -> (r: Result<Self, ErrorKind>) {
        match read_be_bytes(source, 16) {
            Ok(v) => {
                proof {
                    lemma_be_value_bound(old(source)@.take(16));
                    lemma_pow256_values();
                }
                Ok(Ipv6Address { bits: v })
            },
            Err(e) => Err(e),
        }
    }

    fn serialised_length(&self) -> (n: u32) {
        proof {
            lemma_be_bytes_len(self.bits as nat, 16);
        }
        16
    }

    proof fn lemma_encode_parse(&self, rest: Seq<u8>) {
        lemma_be_bytes_len(self.bits as nat, 16);
        lemma_pow256_values();
        let s = self.wire_bytes() + rest;
        assert(s.take(16) =~= self.wire_bytes());
        lemma_be_value_of_be_bytes(self.bits as nat, 16);
    }

    proof fn lemma_parse_len(s: Seq<u8>) {
    }
}

impl TorSerde for WireIpAddress {
    open spec fn wire_ok(&self) -> bool {
        true
    }

    open spec fn wire_fits(&self) -> bool {
        true
    }

    open spec fn wire_decodable() -> bool {
        true
    }

    open spec fn wire_bytes(&self) -> Seq<u8> {
        match self {
            WireIpAddress::V4(a) => seq![4u8, 4u8] + be_bytes(a.bits as nat, 4),
            WireIpAddress::V6(a) => seq![6u8, 16u8] + be_bytes(a.bits as nat, 16),
        }
    }

    open spec fn wire_parse(s: Seq<u8>) -> Result<(WireIpAddress, int), ErrorKind> {
        if s.len() < 2 {
            Err(ErrorKind::EndOfInput)
        } else if s[0] == 4 {
            if s[1] != 4 {
                Err(ErrorKind::MismatchedLength(s[1] as u32, 4))
            } else if s.len() < 6 {
                Err(ErrorKind::EndOfInput)
            } else {
                Ok((WireIpAddress::V4(Ipv4Address { bits: be_value(s.subrange(2, 6)) as u32 }), 6))
            }
        } else if s[0] == 6 {
            if s[1] != 16 {
                Err(ErrorKind::MismatchedLength(s[1] as u32, 16))
            } else if s.len() < 18 {
                Err(ErrorKind::EndOfInput)
            } else {
                Ok(
                    (
                        WireIpAddress::V6(Ipv6Address { bits: be_value(s.subrange(2, 18)) as u128 }),
                        18,
                    ),
                )
            }
        } else {
            Err(ErrorKind::BadDiscriminant(s[0] as u128))
        }
    }

    fn bin_serialise_into(&self, sink: &mut ByteSink) -> (r: Result<u32, ErrorKind>) {
        match self {
            WireIpAddress::V4(a) => {
                sink.write_byte(4);
                sink.write_byte(4);
                write_be_bytes(sink, a.bits as u128, 4);
                proof {
                    lemma_be_bytes_len(a.bits as nat, 4);
                    assert(sink@ =~= old(sink)@ + self.wire_bytes());
                }
                Ok(6)
            },
            WireIpAddress::V6(a) => {
                sink.write_byte(6);
                sink.write_byte(16);
                write_be_bytes(sink, a.bits, 16);
                proof {
                    lemma_be_bytes_len(a.bits as nat, 16);
                    assert(sink@ =~= old(sink)@ + self.wire_bytes());
                }
                Ok(18)
            },
        }
    }

    fn bin_deserialise_from(source: &mut ByteSource) -> (r: Result<Self, ErrorKind>) {
        let mark = source.mark();
        proof {
            old(source).lemma_view();
        }
        let tag = match source.read_byte() {
            Ok(b) => b,
            Err(e) => {
                return Err(e);
            },
        };
        let alen = match source.read_byte() {
            Ok(b) => b,
            Err(e) => {
                proof {
                    source.lemma_view();
                }
                source.rewind(mark);
                return Err(e);
            },
        };
        proof {
            assert(tag == old(source)@[0]);
            assert(alen == old(source)@[1]);
            assert(source@ =~= old(source)@.skip(2));
            source.lemma_view();
        }
        if tag == 4 {
            if alen != 4 {
                source.rewind(mark);
                return Err(ErrorKind::MismatchedLength(alen as u32, 4));
            }
            let ghost mid = source@;
            match read_be_bytes(source, 4) {
                Ok(v) => {
                    proof {
                        lemma_be_value_bound(mid.take(4));
                        lemma_pow256_values();
                        assert(mid.take(4) =~= old(source)@.subrange(2, 6));
                        assert(mid.skip(4) =~= old(source)@.skip(6));
                    }
                    Ok(WireIpAddress::V4(Ipv4Address { bits: v as u32 }))
                },
                Err(e) => {
                    proof {
                        source.lemma_view();
                    }
                    source.rewind(mark);
                    Err(e)
                },
            }
        } else if tag == 6 {
            if alen != 16 {
                source.rewind(mark);
                return Err(ErrorKind::MismatchedLength(alen as u32, 16));
            }
            let ghost mid = source@;
            match read_be_bytes(source, 16) {
                Ok(v) => {
                    proof {
                        lemma_be_value_bound(mid.take(16));
                        lemma_pow256_values();
                        assert(mid.take(16) =~= old(source)@.subrange(2, 18));
                        assert(mid.skip(16) =~= old(source)@.skip(18));
                    }
                    Ok(WireIpAddress::V6(Ipv6Address { bits: v }))
                },
                Err(e) => {
                    proof {
                        source.lemma_view();
                    }
                    source.rewind(mark);
                    Err(e)
                },
            }
        } else {
            source.rewind(mark);
            Err(ErrorKind::BadDiscriminant(tag as u128))
        }
    }

    fn serialised_length(&self) -> (n: u32) {
        match self {
            WireIpAddress::V4(a) => {
                proof {
                    lemma_be_bytes_len(a.bits as nat, 4);
                }
                6
            },
            WireIpAddress::V6(a) => {
                proof {
                    lemma_be_bytes_len(a.bits as nat, 16);
                }
                18
            },
        }
    }

    proof fn lemma_encode_parse(&self, rest: Seq<u8>) {
        lemma_pow256_values();
        let s = self.wire_bytes() + rest;
        match self {
            WireIpAddress::V4(a) => {
                lemma_be_bytes_len(a.bits as nat, 4);
                assert(s[0] == 4 && s[1] == 4);
                assert(s.subrange(2, 6) =~= be_bytes(a.bits as nat, 4));
                lemma_be_value_of_be_bytes(a.bits as nat, 4);
            },
            WireIpAddress::V6(a) => {
                lemma_be_bytes_len(a.bits as nat, 16);
                assert(s[0] == 6 && s[1] == 16);
                assert(s.subrange(2, 18) =~= be_bytes(a.bits as nat, 16));
                lemma_be_value_of_be_bytes(a.bits as nat, 16);
            },
        }
    }

    proof fn lemma_parse_len(s: Seq<u8>) {
    }
}

} // verus!

//! The cross-cutting laws of the codec, stated once over every codec
//! type.
//!
//! Byte-exactness — that `serialised_length` always equals the count that
//! `bin_serialise_into` returns and the number of bytes it writes — needs
//! no lemma of its own: both contracts pin their result to
//! `wire_bytes().len()` for every implementor.

use vstd::prelude::*;

use crate::addr::{Ipv4Address, Ipv6Address, WireIpAddress};
use crate::codec::TorSerde;
use crate::lists::{NLengthVector, VersionsVector};
use crate::time::WireTimestamp;
use crate::ErrorKind;

verus! {

/// Round trip: for every codec type and every encodable value, the byte
/// image of the value, followed by anything at all, parses back to
/// exactly that value's model, consuming exactly the image.
pub proof fn lemma_round_trip<T: TorSerde>(v: T, rest: Seq<u8>)
    requires
        v.wire_ok(),
        v.wire_fits(),
        T::wire_decodable(),
    ensures
        T::wire_parse(v.wire_bytes() + rest) matches Ok(p) && p.0 == v.deep_view() && p.1
            == v.wire_bytes().len(),
{
    v.lemma_encode_parse(rest);
}

/// Truncated input: a source holding fewer bytes than a fixed-width value
/// needs parses to `EndOfInput`, deterministically.
pub proof fn lemma_truncated_fixed_width(s: Seq<u8>)
    ensures
        s.len() < 1 ==> u8::wire_parse(s) == Err::<(u8, int), ErrorKind>(ErrorKind::EndOfInput),
        s.len() < 2 ==> u16::wire_parse(s) == Err::<(u16, int), ErrorKind>(ErrorKind::EndOfInput),
        s.len() < 4 ==> u32::wire_parse(s) == Err::<(u32, int), ErrorKind>(ErrorKind::EndOfInput),
        s.len() < 8 ==> u64::wire_parse(s) == Err::<(u64, int), ErrorKind>(ErrorKind::EndOfInput),
        s.len() < 16 ==> u128::wire_parse(s) == Err::<(u128, int), ErrorKind>(
            ErrorKind::EndOfInput,
        ),
        s.len() < 4 ==> Ipv4Address::wire_parse(s) == Err::<(Ipv4Address, int), ErrorKind>(
            ErrorKind::EndOfInput,
        ),
        s.len() < 16 ==> Ipv6Address::wire_parse(s) == Err::<(Ipv6Address, int), ErrorKind>(
            ErrorKind::EndOfInput,
        ),
        s.len() < 2 ==> WireIpAddress::wire_parse(s) == Err::<(WireIpAddress, int), ErrorKind>(
            ErrorKind::EndOfInput,
        ),
        s.len() < 4 ==> WireTimestamp::wire_parse(s) == Err::<(WireTimestamp, int), ErrorKind>(
            ErrorKind::EndOfInput,
        ),
{
}

/// Truncated input: a source holding fewer bytes than a fixed byte
/// array's width parses to `EndOfInput`.
pub proof fn lemma_truncated_array<const N: usize>(s: Seq<u8>)
    requires
        s.len() < N as int,
    ensures
        <[u8; N]>::wire_parse(s) == Err::<(Seq<u8>, int), ErrorKind>(ErrorKind::EndOfInput),
{
}

/// Truncated input: a source holding fewer bytes than a list's count
/// prefix parses to `EndOfInput`; decoding stops before any element.
pub proof fn lemma_truncated_list_prefix<T: TorSerde, const N: usize>(s: Seq<u8>)
    requires
        s.len() < N as int,
    ensures
        NLengthVector::<T, N>::wire_parse(s) == Err::<(Seq<T::V>, int), ErrorKind>(
            ErrorKind::EndOfInput,
        ),
{
}

/// Truncated input: a source holding fewer bytes than the versions list's
/// byte-length prefix parses to `EndOfInput`.
pub proof fn lemma_truncated_versions_prefix(s: Seq<u8>)
    requires
        s.len() < 2,
    ensures
        VersionsVector::wire_parse(s) == Err::<(Seq<u16>, int), ErrorKind>(ErrorKind::EndOfInput),
{
}

} // verus!

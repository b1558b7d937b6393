//! The wire timestamp codec: an instant as a 32-bit count of whole
//! seconds since the Unix epoch, written big-endian.
//!
//! The wire carries exactly this count, so encoding and decoding are
//! deterministic on every machine.  Turning the count into calendar or
//! local time, or truncating a wider clock reading into it, is the
//! caller's concern at the boundary; `from_wide_seconds` performs the
//! wrap into the 32-bit range (the count wraps every 2^32 seconds, past
//! the year 2106).

use vstd::prelude::*;

use crate::bytes::{ByteSink, ByteSource};
use crate::codec::{read_be_bytes, write_be_bytes, TorSerde};
use crate::wire::{
    be_bytes, be_value, lemma_be_bytes_len, lemma_be_value_bound, lemma_be_value_of_be_bytes,
    lemma_pow256_values,
};
use crate::ErrorKind;

verus! {

/// An instant in whole seconds since the Unix epoch, as the wire holds
/// it.
#[derive(Debug, Clone, Copy, PartialEq, Eq)]
pub struct WireTimestamp {
    pub seconds: u32,
}

impl WireTimestamp {
    /// The instant `seconds` after the epoch.
    pub fn new(seconds: u32) -> (r: WireTimestamp)
        ensures
            r.seconds == seconds,
    {
        WireTimestamp { seconds }
    }

    /// Truncate a wide second count to the 32-bit wire range; counts past
    /// the range wrap around rather than being rejected.
    pub fn from_wide_seconds(seconds: u64) -> (r: WireTimestamp)
        ensures
            r.seconds as int == seconds as int % 0x1_0000_0000,
    {
        WireTimestamp { seconds: (seconds % 0x1_0000_0000) as u32 }
    }
}

impl DeepView for WireTimestamp {
    type V = WireTimestamp;

    open spec fn deep_view(&self) -> WireTimestamp {
        *self
    }
}

impl TorSerde for WireTimestamp {
    open spec fn wire_ok(&self) -> bool {
        true
    }

    open spec fn wire_fits(&self) -> bool {
        true
    }

    open spec fn wire_decodable() -> bool {
        true
    }

    open spec fn wire_bytes(&self) -> Seq<u8> {
        be_bytes(self.seconds as nat, 4)
    }

    open spec fn wire_parse(s: Seq<u8>) -> Result<(WireTimestamp, int), ErrorKind> {
        if s.len() < 4 {
            Err(ErrorKind::EndOfInput)
        } else {
            Ok((WireTimestamp { seconds: be_value(s.take(4)) as u32 }, 4))
        }
    }

    fn bin_serialise_into(&self, sink: &mut ByteSink) -> (r: Result<u32, ErrorKind>) {
        write_be_bytes(sink, self.seconds as u128, 4);
        proof {
            lemma_be_bytes_len(self.seconds as nat, 4);
        }
        Ok(4)
    }

    fn bin_deserialise_from(source: &mut ByteSource) -> (r: Result<Self, ErrorKind>) {
        match read_be_bytes(source, 4) {
            Ok(v) => {
                proof {
                    lemma_be_value_bound(old(source)@.take(4));
                    lemma_pow256_values();
                }
                Ok(WireTimestamp { seconds: v as u32 })
            },
            Err(e) => Err(e),
        }
    }

    fn serialised_length(&self) -> (n: u32) {
        proof {
            lemma_be_bytes_len(self.seconds as nat, 4);
        }
        4
    }

    proof fn lemma_encode_parse(&self, rest: Seq<u8>) {
        lemma_be_bytes_len(self.seconds as nat, 4);
        lemma_pow256_values();
        let s = self.wire_bytes() + rest;
        assert(s.take(4) =~= self.wire_bytes());
        lemma_be_value_of_be_bytes(self.seconds as nat, 4);
    }

    proof fn lemma_parse_len(s: Seq<u8>) {
    }
}

} // verus!

//! The wire string codec: UTF-8 text terminated by a single zero sentinel
//! byte.
//!
//! A `WireString` holds UTF-8 bytes that are free of the sentinel; the
//! constructor validates both properties, so no encodable value can embed
//! a sentinel.  Decoding accumulates bytes up to the first sentinel and
//! validates them as UTF-8, failing with `InvalidUtf8` on malformed input
//! instead of assuming validity.  Decoding reads without bound until a
//! sentinel appears: a corrupted stream without one exhausts the source
//! and reports `EndOfInput`, so callers must bound input size upstream.

use vstd::prelude::*;

use crate::bytes::{ByteSink, ByteSource};
use crate::codec::TorSerde;
use crate::ErrorKind;

verus! {

/// A UTF-8 continuation byte.
pub open spec fn utf8_cont(b: u8) -> bool {
    0x80 <= b && b <= 0xBF
}

/// The length of the scalar-value sequence a leading byte opens, or 0 if
/// no well-formed sequence starts with it.
pub open spec fn utf8_len(b: u8) -> int {
    if b < 0x80 {
        1
    } else if 0xC2 <= b && b <= 0xDF {
        2
    } else if 0xE0 <= b && b <= 0xEF {
        3
    } else if 0xF0 <= b && b <= 0xF4 {
        4
    } else {
        0
    }
}

/// The sequence opens with one well-formed UTF-8 scalar-value encoding
/// (shortest form, no surrogates, at most U+10FFFF).
pub open spec fn utf8_step_ok(s: Seq<u8>) -> bool
    recommends
        s.len() > 0,
{
    let b = s[0];
    if b < 0x80 {
        true
    } else if 0xC2 <= b && b <= 0xDF {
        s.len() >= 2 && utf8_cont(s[1])
    } else if b == 0xE0 {
        s.len() >= 3 && 0xA0 <= s[1] && s[1] <= 0xBF && utf8_cont(s[2])
    } else if b == 0xED {
        s.len() >= 3 && 0x80 <= s[1] && s[1] <= 0x9F && utf8_cont(s[2])
    } else if 0xE0 <= b && b <= 0xEF {
        s.len() >= 3 && utf8_cont(s[1]) && utf8_cont(s[2])
    } else if b == 0xF0 {
        s.len() >= 4 && 0x90 <= s[1] && s[1] <= 0xBF && utf8_cont(s[2]) && utf8_cont(s[3])
    } else if b == 0xF4 {
        s.len() >= 4 && 0x80 <= s[1] && s[1] <= 0x8F && utf8_cont(s[2]) && utf8_cont(s[3])
    } else if 0xF0 <= b && b <= 0xF4 {
        s.len() >= 4 && utf8_cont(s[1]) && utf8_cont(s[2]) && utf8_cont(s[3])
    } else {
        false
    }
}

/// The whole sequence is well-formed UTF-8.
pub open spec fn valid_utf8(s: Seq<u8>) -> bool
    decreases s.len(),
{
    if s.len() == 0 {
        true
    } else if utf8_step_ok(s) {
        valid_utf8(s.skip(utf8_len(s[0])))
    } else {
        false
    }
}

/// No byte of the sequence is the sentinel.
pub open spec fn no_nul(s: Seq<u8>) -> bool {
    forall|i: int| 0 <= i < s.len() ==> s[i] != 0
}

/// The position of the first sentinel byte, if any.
pub open spec fn first_nul(s: Seq<u8>) -> Option<int>
    decreases s.len(),
{
    if s.len() == 0 {
        None
    } else if s[0] == 0 {
        Some(0)
    } else {
        match first_nul(s.skip(1)) {
            Some(i) => Some(i + 1),
            None => None,
        }
    }
}

/// What `first_nul` finds: the first position holding a zero byte.
pub proof fn lemma_first_nul_props(s: Seq<u8>)
    ensures
        match first_nul(s) {
            Some(i) => {
                &&& 0 <= i < s.len()
                &&& s[i] == 0
                &&& forall|k: int| 0 <= k < i ==> s[k] != 0
            },
            None => no_nul(s),
        },
    decreases s.len(),
{
    if s.len() > 0 && s[0] != 0 {
        lemma_first_nul_props(s.skip(1));
        match first_nul(s.skip(1)) {
            Some(i) => {
                assert(s.skip(1)[i] == s[i + 1]);
                assert forall|k: int| 0 <= k < i + 1 implies s[k] != 0 by {
                    if k > 0 {
                        assert(s.skip(1)[k - 1] == s[k]);
                    }
                }
            },
            None => {
                assert forall|k: int| 0 <= k < s.len() implies s[k] != 0 by {
                    if k > 0 {
                        assert(s.skip(1)[k - 1] == s[k]);
                    }
                }
            },
        }
    }
}

/// A position holding the first zero byte is what `first_nul` returns.
pub proof fn lemma_first_nul_at(s: Seq<u8>, i: int)
    requires
        0 <= i < s.len(),
        s[i] == 0,
        forall|k: int| 0 <= k < i ==> s[k] != 0,
    ensures
        first_nul(s) == Some(i),
    decreases i,
{
    if i > 0 {
        assert forall|k: int| 0 <= k < i - 1 implies s.skip(1)[k] != 0 by {
            assert(s.skip(1)[k] == s[k + 1]);
        }
        assert(s.skip(1)[i - 1] == s[i]);
        lemma_first_nul_at(s.skip(1), i - 1);
    }
}

/// A sequence wholly without zero bytes has no first one.
pub proof fn lemma_first_nul_none(s: Seq<u8>)
    requires
        no_nul(s),
    ensures
        first_nul(s) == Option::<int>::None,
    decreases s.len(),
{
    if s.len() > 0 {
        assert forall|k: int| 0 <= k < s.skip(1).len() implies s.skip(1)[k] != 0 by {
            assert(s.skip(1)[k] == s[k + 1]);
        }
        lemma_first_nul_none(s.skip(1));
    }
}

/// Check a byte sequence for well-formed UTF-8.
pub fn is_valid_utf8(bytes: &Vec<u8>) -> (b: bool)
    ensures
        b == valid_utf8(bytes@),
{
    let n = bytes.len();
    let mut i: usize = 0;
    proof {
        assert(bytes@.skip(0) =~= bytes@);
    }
    while i < n
        invariant
            i <= n,
            n == bytes@.len(),
            valid_utf8(bytes@) == valid_utf8(bytes@.skip(i as int)),
        decreases n - i,
    {
        let ghost s = bytes@.skip(i as int);
        proof {
            assert(s[0] == bytes@[i as int]);
            assert(s.len() == n - i);
        }
        let b0 = bytes[i];
        let step: usize = if b0 < 0x80 {
            1
        } else if 0xC2 <= b0 && b0 <= 0xDF {
            if n - i >= 2 && {
                let b1 = bytes[i + 1];
                0x80 <= b1 && b1 <= 0xBF
            } {
                2
            } else {
                0
            }
        } else if b0 == 0xE0 {
            if n - i >= 3 && {
                let b1 = bytes[i + 1];
                let b2 = bytes[i + 2];
                0xA0 <= b1 && b1 <= 0xBF && 0x80 <= b2 && b2 <= 0xBF
            } {
                3
            } else {
                0
            }
        } else if b0 == 0xED {
            if n - i >= 3 && {
                let b1 = bytes[i + 1];
                let b2 = bytes[i + 2];
                0x80 <= b1 && b1 <= 0x9F && 0x80 <= b2 && b2 <= 0xBF
            } {
                3
            } else {
                0
            }
        } else if 0xE0 <= b0 && b0 <= 0xEF {
            if n - i >= 3 && {
                let b1 = bytes[i + 1];
                let b2 = bytes[i + 2];
                0x80 <= b1 && b1 <= 0xBF && 0x80 <= b2 && b2 <= 0xBF
            } {
                3
            } else {
                0
            }
        } else if b0 == 0xF0 {
            if n - i >= 4 && {
                let b1 = bytes[i + 1];
                let b2 = bytes[i + 2];
                let b3 = bytes[i + 3];
                0x90 <= b1 && b1 <= 0xBF && 0x80 <= b2 && b2 <= 0xBF && 0x80 <= b3 && b3 <= 0xBF
            } {
                4
            } else {
                0
            }
        } else if b0 == 0xF4 {
            if n - i >= 4 && {
                let b1 = bytes[i + 1];
                let b2 = bytes[i + 2];
                let b3 = bytes[i + 3];
                0x80 <= b1 && b1 <= 0x8F && 0x80 <= b2 && b2 <= 0xBF && 0x80 <= b3 && b3 <= 0xBF
            } {
                4
            } else {
                0
            }
        } else if 0xF0 <= b0 && b0 <= 0xF4 {
            if n - i >= 4 && {
                let b1 = bytes[i + 1];
                let b2 = bytes[i + 2];
                let b3 = bytes[i + 3];
                0x80 <= b1 && b1 <= 0xBF && 0x80 <= b2 && b2 <= 0xBF && 0x80 <= b3 && b3 <= 0xBF
            } {
                4
            } else {
                0
            }
        } else {
            0
        };
        if step == 0 {
            proof {
                if s.len() >= 2 {
                    assert(s[1] == bytes@[i as int + 1]);
                }
                if s.len() >= 3 {
                    assert(s[2] == bytes@[i as int + 2]);
                }
                if s.len() >= 4 {
                    assert(s[3] == bytes@[i as int + 3]);
                }
                assert(!(utf8_step_ok(s) && utf8_len(s[0]) <= s.len()));
                assert(!valid_utf8(s));
            }
            return false;
        }
        proof {
            if s.len() >= 2 {
                assert(s[1] == bytes@[i as int + 1]);
            }
            if s.len() >= 3 {
                assert(s[2] == bytes@[i as int + 2]);
            }
            if s.len() >= 4 {
                assert(s[3] == bytes@[i as int + 3]);
            }
            assert(utf8_step_ok(s));
            assert(utf8_len(s[0]) == step);
            assert(s.skip(step as int) =~= bytes@.skip(i as int + step as int));
            assert(valid_utf8(s) == valid_utf8(bytes@.skip(i as int + step as int)));
        }
        i = i + step;
    }
    proof {
        assert(bytes@.skip(n as int) =~= Seq::<u8>::empty());
    }
    true
}

/// UTF-8 text free of the sentinel byte, ready for the wire.
#[derive(Debug, Clone, PartialEq, Eq)]
pub struct WireString {
    bytes: Vec<u8>,
}

impl DeepView for WireString {
    type V = Seq<u8>;

    closed spec fn deep_view(&self) -> Seq<u8> {
        self.bytes@
    }
}

impl WireString {
    /// Well-formedness: the content is UTF-8 and holds no sentinel byte.
    pub open spec fn inv(&self) -> bool {
        valid_utf8(self.deep_view()) && no_nul(self.deep_view())
    }

    /// Take ownership of validated content: UTF-8 bytes without a zero
    /// byte.  Content that fails either check is refused, so every
    /// `WireString` has a well-defined image.
    pub fn new(bytes: Vec<u8>) -> (r: Option<WireString>)
        ensures
            match r {
                Some(w) => {
                    &&& w.inv()
                    &&& w.deep_view() == bytes@
                },
                None => !(valid_utf8(bytes@) && no_nul(bytes@)),
            },
    {
        if !is_valid_utf8(&bytes) {
            return None;
        }
        let mut i: usize = 0;
        let n = bytes.len();
        while i < n
            invariant
                i <= n,
                n == bytes@.len(),
                forall|k: int| 0 <= k < i ==> bytes@[k] != 0,
            decreases n - i,
        {
            if bytes[i] == 0 {
                return None;
            }
            i = i + 1;
        }
        Some(WireString { bytes })
    }

    /// Borrow the content bytes.
    pub fn as_bytes(&self) -> (r: &Vec<u8>)
        ensures
            r@ == self.deep_view(),
    {
        &self.bytes
    }

    /// Hand the content bytes over to the caller.
    pub fn into_bytes(self) -> (r: Vec<u8>)
        ensures
            r@ == self.deep_view(),
    {
        self.bytes
    }

    /// The content length in bytes, without the sentinel.
    pub fn content_len(&self) -> (n: usize)
        ensures
            n as int == self.deep_view().len(),
    {
        self.bytes.len()
    }
}

impl TorSerde for WireString {
    open spec fn wire_ok(&self) -> bool {
        self.inv()
    }

    open spec fn wire_fits(&self) -> bool {
        self.deep_view().len() + 1 <= 0xFFFF_FFFF
    }

    open spec fn wire_decodable() -> bool {
        true
    }

    open spec fn wire_bytes(&self) -> Seq<u8> {
        self.deep_view() + seq![0u8]
    }

    open spec fn wire_parse(s: Seq<u8>) -> Result<(Seq<u8>, int), ErrorKind> {
        match first_nul(s) {
            Some(i) => {
                if valid_utf8(s.take(i)) {
                    Ok((s.take(i), i + 1))
                } else {
                    Err(ErrorKind::InvalidUtf8)
                }
            },
            None => Err(ErrorKind::EndOfInput),
        }
    }

    fn bin_serialise_into(&self, sink: &mut ByteSink) -> (r: Result<u32, ErrorKind>) {
        if self.bytes.len() as u64 > 0xFFFF_FFFEu64 {
            proof {
                assert(old(sink)@.is_prefix_of(sink@));
            }
            return Err(ErrorKind::LengthOverflow);
        }
        let n = self.bytes.len();
        let mut i: usize = 0;
        proof {
            assert(sink@ =~= old(sink)@ + self.deep_view().take(0));
        }
        while i < n
            invariant
                i <= n,
                n == self.deep_view().len(),
                sink@ == old(sink)@ + self.deep_view().take(i as int),
            decreases n - i,
        {
            proof {
                assert(self.deep_view().take(i as int + 1) =~= self.deep_view().take(i as int)
                    + seq![self.deep_view()[i as int]]);
            }
            sink.write_byte(self.bytes[i]);
            i = i + 1;
        }
        sink.write_byte(0);
        proof {
            assert(self.deep_view().take(n as int) =~= self.deep_view());
            assert(sink@ =~= old(sink)@ + self.wire_bytes());
        }
        Ok((n as u32) + 1)
    }

    fn bin_deserialise_from(source: &mut ByteSource) -> (r: Result<Self, ErrorKind>) {
        let mark = source.mark();
        proof {
            old(source).lemma_view();
            assert(source@ =~= old(source)@.skip(0));
            assert(old(source)@.take(0) =~= Seq::<u8>::empty());
        }
        let mut content: Vec<u8> = Vec::new();
        loop
            invariant
                source.inv(),
                old(source).inv(),
                source.all_bytes() == old(source).all_bytes(),
                mark as int == old(source).offset(),
                content@.len() <= old(source)@.len(),
                content@ == old(source)@.take(content@.len() as int),
                source@ == old(source)@.skip(content@.len() as int),
                forall|j: int| 0 <= j < content@.len() ==> old(source)@[j] != 0,
            decreases source@.len(),
        {
            let ghost k = content@.len() as int;
            match source.read_byte() {
                Ok(b) => {
                    proof {
                        assert(source@ =~= old(source)@.skip(k + 1));
                        assert(old(source)@[k] == b);
                    }
                    if b == 0 {
                        proof {
                            lemma_first_nul_at(old(source)@, k);
                        }
                        let valid = is_valid_utf8(&content);
                        if valid {
                            return Ok(WireString { bytes: content });
                        } else {
                            proof {
                                source.lemma_view();
                                old(source).lemma_view();
                            }
                            source.rewind(mark);
                            return Err(ErrorKind::InvalidUtf8);
                        }
                    }
                    content.push(b);
                    proof {
                        assert(content@ =~= old(source)@.take(k + 1));
                    }
                },
                Err(e) => {
                    proof {
                        assert(content@.len() == old(source)@.len());
                        lemma_first_nul_none(old(source)@);
                        source.lemma_view();
                        old(source).lemma_view();
                    }
                    source.rewind(mark);
                    return Err(e);
                },
            }
        }
    }

    fn serialised_length(&self) -> (n: u32) {
        (self.bytes.len() as u32) + 1
    }

    proof fn lemma_encode_parse(&self, rest: Seq<u8>) {
        let dv = self.deep_view();
        let s = self.wire_bytes() + rest;
        assert(s[dv.len() as int] == 0);
        assert forall|k: int| 0 <= k < dv.len() implies s[k] != 0 by {
            assert(s[k] == dv[k]);
        }
        lemma_first_nul_at(s, dv.len() as int);
        assert(s.take(dv.len() as int) =~= dv);
    }

    proof fn lemma_parse_len(s: Seq<u8>) {
        lemma_first_nul_props(s);
    }
}

} // verus!

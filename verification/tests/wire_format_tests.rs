use torserde::{
    ByteSink, ByteSource, ErrorKind, Ipv4Address, NLengthVector, TorSerde, VersionsVector,
    WireIpAddress, WireString, WireTimestamp,
};

fn encode_to_vec<T: TorSerde>(value: &T) -> (u32, Vec<u8>) {
    let mut sink = ByteSink::new();
    let n = value.bin_serialise_into(&mut sink).unwrap();
    (n, sink.into_bytes())
}

#[test]
fn versions_vector_canonical_form() {
    let wrap = VersionsVector::from(vec![3u16, 4]);

    let (written, bytes) = encode_to_vec(&wrap);

    assert_eq!(bytes.as_slice(), &[0, 4, 0, 3, 0, 4]);
    assert_eq!(written, 6);
    assert_eq!(wrap.serialised_length(), 6);

    let mut source = ByteSource::new(bytes);
    let d_wrap = VersionsVector::bin_deserialise_from(&mut source).unwrap();
    assert_eq!(source.remaining(), 0);
    assert_eq!(Vec::from(wrap), Vec::from(d_wrap));
}

#[test]
fn versions_vector_elements_length() {
    let wrap = VersionsVector::from(vec![3u16, 4, 5]);
    assert_eq!(wrap.serialised_elements_length(), 6);
}

#[test]
fn ipaddr_tagged_v4_layout() {
    let ip = WireIpAddress::V4(Ipv4Address::new(245, 67, 12, 34));

    let (written, bytes) = encode_to_vec(&ip);

    assert_eq!(bytes.as_slice(), &[4, 4, 245, 67, 12, 34]);
    assert_eq!(written, 6);

    let mut source = ByteSource::new(bytes);
    let d_ip = WireIpAddress::bin_deserialise_from(&mut source).unwrap();
    assert_eq!(d_ip, ip);
}

#[test]
fn ipaddr_tagged_v6_layout() {
    let ip = WireIpAddress::V6(torserde::Ipv6Address::new(0x1234));

    let (written, bytes) = encode_to_vec(&ip);

    let mut expected = vec![6u8, 16];
    expected.extend_from_slice(&[0; 14]);
    expected.extend_from_slice(&[0x12, 0x34]);
    assert_eq!(bytes, expected);
    assert_eq!(written, 18);

    let mut source = ByteSource::new(bytes);
    let d_ip = WireIpAddress::bin_deserialise_from(&mut source).unwrap();
    assert_eq!(d_ip, ip);
}

#[test]
fn measure_equals_encoded_size() {
    let mut sink = ByteSink::new();
    let mut before = sink.len();

    let a = 0x39e3u16;
    assert_eq!(a.bin_serialise_into(&mut sink).unwrap() as usize, sink.len() - before);
    assert_eq!(a.serialised_length() as usize, sink.len() - before);

    before = sink.len();
    let b = [9u8, 8, 7];
    assert_eq!(b.bin_serialise_into(&mut sink).unwrap() as usize, sink.len() - before);
    assert_eq!(b.serialised_length() as usize, sink.len() - before);

    before = sink.len();
    let c = WireString::new(b"tor".to_vec()).unwrap();
    assert_eq!(c.bin_serialise_into(&mut sink).unwrap() as usize, sink.len() - before);
    assert_eq!(c.serialised_length() as usize, sink.len() - before);

    before = sink.len();
    let d = NLengthVector::<u32, 2>::from(vec![1, 2, 3]);
    assert_eq!(d.bin_serialise_into(&mut sink).unwrap() as usize, sink.len() - before);
    assert_eq!(d.serialised_length() as usize, sink.len() - before);

    before = sink.len();
    let e = WireIpAddress::V4(Ipv4Address::new(1, 2, 3, 4));
    assert_eq!(e.bin_serialise_into(&mut sink).unwrap() as usize, sink.len() - before);
    assert_eq!(e.serialised_length() as usize, sink.len() - before);

    before = sink.len();
    let f = VersionsVector::from(vec![3u16, 4]);
    assert_eq!(f.bin_serialise_into(&mut sink).unwrap() as usize, sink.len() - before);
    assert_eq!(f.serialised_length() as usize, sink.len() - before);

    before = sink.len();
    let g = WireTimestamp::new(77);
    assert_eq!(g.bin_serialise_into(&mut sink).unwrap() as usize, sink.len() - before);
    assert_eq!(g.serialised_length() as usize, sink.len() - before);
}

#[test]
fn list_two_byte_prefix_layout() {
    let wrap = NLengthVector::<u8, 2>::from(vec![10, 20, 30]);

    let (written, bytes) = encode_to_vec(&wrap);

    assert_eq!(bytes.as_slice(), &[0, 3, 10, 20, 30]);
    assert_eq!(written, 5);

    let mut source = ByteSource::new(bytes);
    let d_wrap = NLengthVector::<u8, 2>::bin_deserialise_from(&mut source).unwrap();
    assert_eq!(Vec::from(wrap), Vec::from(d_wrap));
}

#[test]
fn list_four_byte_prefix_layout() {
    let wrap = NLengthVector::<u16, 4>::from(vec![0x0102]);

    let (written, bytes) = encode_to_vec(&wrap);

    assert_eq!(bytes.as_slice(), &[0, 0, 0, 1, 1, 2]);
    assert_eq!(written, 6);

    let mut source = ByteSource::new(bytes);
    let d_wrap = NLengthVector::<u16, 4>::bin_deserialise_from(&mut source).unwrap();
    assert_eq!(Vec::from(wrap), Vec::from(d_wrap));
}

#[test]
fn nested_list_round_trip() {
    let inner_one = NLengthVector::<u8, 1>::from(vec![1, 2]);
    let inner_two = NLengthVector::<u8, 1>::from(vec![3]);
    let outer = NLengthVector::<NLengthVector<u8, 1>, 2>::from(vec![inner_one, inner_two]);

    let (written, bytes) = encode_to_vec(&outer);

    assert_eq!(bytes.as_slice(), &[0, 2, 2, 1, 2, 1, 3]);
    assert_eq!(written, 7);

    let mut source = ByteSource::new(bytes);
    let d_outer =
        NLengthVector::<NLengthVector<u8, 1>, 2>::bin_deserialise_from(&mut source).unwrap();
    assert_eq!(outer, d_outer);
}

#[test]
fn string_stops_at_first_sentinel() {
    let mut source = ByteSource::new(vec![104, 105, 0, 33, 33]);

    let d_string = WireString::bin_deserialise_from(&mut source).unwrap();

    assert_eq!(d_string.as_bytes().as_slice(), b"hi");
    assert_eq!(source.remaining(), 2);
}

#[test]
fn string_multibyte_round_trip() {
    let content = "héllo".as_bytes().to_vec();
    let string = WireString::new(content.clone()).unwrap();

    let (written, bytes) = encode_to_vec(&string);
    assert_eq!(written as usize, content.len() + 1);

    let mut source = ByteSource::new(bytes);
    let d_string = WireString::bin_deserialise_from(&mut source).unwrap();
    assert_eq!(d_string.as_bytes().as_slice(), content.as_slice());
}

#[test]
fn wire_string_refuses_embedded_sentinel() {
    assert!(WireString::new(vec![104, 0, 105]).is_none());
}

#[test]
fn wire_string_refuses_invalid_utf8() {
    assert!(WireString::new(vec![0xC3, 0x28]).is_none());
    assert!(WireString::new(vec![0xFF]).is_none());
    assert!(WireString::new(vec![0xE0, 0x80, 0x80]).is_none());
    assert!(WireString::new(vec![0xED, 0xA0, 0x80]).is_none());
    assert!(WireString::new(vec![0xC3]).is_none());
}

#[test]
fn string_decode_rejects_invalid_utf8() {
    let mut source = ByteSource::new(vec![0xC3, 0x28, 0]);

    let r = WireString::bin_deserialise_from(&mut source);

    assert!(matches!(r, Err(ErrorKind::InvalidUtf8)));
    assert_eq!(source.remaining(), 3);
}

#[test]
fn string_decode_without_sentinel_is_end_of_input() {
    let mut source = ByteSource::new(vec![104, 105]);

    let r = WireString::bin_deserialise_from(&mut source);

    assert!(matches!(r, Err(ErrorKind::EndOfInput)));
    assert_eq!(source.remaining(), 2);
}

#[test]
fn truncated_scalars_are_end_of_input() {
    let mut source = ByteSource::new(vec![]);
    assert!(matches!(
        u8::bin_deserialise_from(&mut source),
        Err(ErrorKind::EndOfInput)
    ));

    let mut source = ByteSource::new(vec![0x39]);
    assert!(matches!(
        u16::bin_deserialise_from(&mut source),
        Err(ErrorKind::EndOfInput)
    ));
    assert_eq!(source.remaining(), 1);

    let mut source = ByteSource::new(vec![1, 2, 3]);
    assert!(matches!(
        u32::bin_deserialise_from(&mut source),
        Err(ErrorKind::EndOfInput)
    ));

    let mut source = ByteSource::new(vec![1, 2, 3, 4, 5, 6, 7]);
    assert!(matches!(
        u64::bin_deserialise_from(&mut source),
        Err(ErrorKind::EndOfInput)
    ));

    let mut source = ByteSource::new(vec![0; 15]);
    assert!(matches!(
        u128::bin_deserialise_from(&mut source),
        Err(ErrorKind::EndOfInput)
    ));
    assert_eq!(source.remaining(), 15);
}

#[test]
fn truncated_array_is_end_of_input() {
    let mut source = ByteSource::new(vec![1, 2, 3, 4, 5, 6]);

    let r = <[u8; 7]>::bin_deserialise_from(&mut source);

    assert!(matches!(r, Err(ErrorKind::EndOfInput)));
    assert_eq!(source.remaining(), 6);
}

#[test]
fn truncated_list_is_end_of_input() {
    // The prefix declares three elements; only one follows.
    let mut source = ByteSource::new(vec![3, 0, 1]);

    let r = NLengthVector::<u16, 1>::bin_deserialise_from(&mut source);

    assert!(matches!(r, Err(ErrorKind::EndOfInput)));
    assert_eq!(source.remaining(), 3);
}

#[test]
fn truncated_versions_vector_is_end_of_input() {
    // The prefix declares four bytes of elements; only two follow.
    let mut source = ByteSource::new(vec![0, 4, 0, 3]);

    let r = VersionsVector::bin_deserialise_from(&mut source);

    assert!(matches!(r, Err(ErrorKind::EndOfInput)));
    assert_eq!(source.remaining(), 4);
}

#[test]
fn truncated_ipaddr_is_end_of_input() {
    let mut source = ByteSource::new(vec![4]);
    assert!(matches!(
        WireIpAddress::bin_deserialise_from(&mut source),
        Err(ErrorKind::EndOfInput)
    ));
    assert_eq!(source.remaining(), 1);

    let mut source = ByteSource::new(vec![4, 4, 1, 2]);
    assert!(matches!(
        WireIpAddress::bin_deserialise_from(&mut source),
        Err(ErrorKind::EndOfInput)
    ));
    assert_eq!(source.remaining(), 4);
}

#[test]
fn ipaddr_bad_tag_is_bad_discriminant() {
    let mut source = ByteSource::new(vec![7, 4, 1, 2, 3, 4]);

    let r = WireIpAddress::bin_deserialise_from(&mut source);

    assert!(matches!(r, Err(ErrorKind::BadDiscriminant(7))));
    assert_eq!(source.remaining(), 6);
}

#[test]
fn ipaddr_wrong_length_byte_is_mismatched_length() {
    let mut source = ByteSource::new(vec![4, 16, 1, 2, 3, 4]);

    let r = WireIpAddress::bin_deserialise_from(&mut source);

    assert!(matches!(r, Err(ErrorKind::MismatchedLength(16, 4))));
    assert_eq!(source.remaining(), 6);
}

#[test]
fn list_count_overflowing_prefix_is_rejected() {
    let wrap = NLengthVector::<u8, 1>::from(vec![0u8; 256]);

    let mut sink = ByteSink::new();
    let r = wrap.bin_serialise_into(&mut sink);

    assert!(matches!(r, Err(ErrorKind::LengthOverflow)));
    assert_eq!(sink.len(), 0);
}

#[test]
fn versions_count_overflowing_prefix_is_rejected() {
    let wrap = VersionsVector::from(vec![0u16; 0x8000]);

    let mut sink = ByteSink::new();
    let r = wrap.bin_serialise_into(&mut sink);

    assert!(matches!(r, Err(ErrorKind::LengthOverflow)));
    assert_eq!(sink.len(), 0);
}

#[test]
fn timestamp_wide_seconds_wrap() {
    let t = WireTimestamp::from_wide_seconds(0x1_0000_0005);
    assert_eq!(t.seconds, 5);

    let (_, bytes) = encode_to_vec(&t);
    assert_eq!(bytes.as_slice(), &[0, 0, 0, 5]);
}

#[test]
fn empty_list_round_trip() {
    let wrap = NLengthVector::<u16, 1>::from(vec![]);

    let (written, bytes) = encode_to_vec(&wrap);
    assert_eq!(bytes.as_slice(), &[0]);
    assert_eq!(written, 1);

    let mut source = ByteSource::new(bytes);
    let d_wrap = NLengthVector::<u16, 1>::bin_deserialise_from(&mut source).unwrap();
    assert!(Vec::from(d_wrap).is_empty());
}

#[test]
fn empty_string_round_trip() {
    let string = WireString::new(Vec::new()).unwrap();

    let (written, bytes) = encode_to_vec(&string);
    assert_eq!(bytes.as_slice(), &[0]);
    assert_eq!(written, 1);

    let mut source = ByteSource::new(bytes);
    let d_string = WireString::bin_deserialise_from(&mut source).unwrap();
    assert_eq!(d_string.content_len(), 0);
}

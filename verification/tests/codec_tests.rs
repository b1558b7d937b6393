use torserde::{
    ByteSink, ByteSource, Ipv4Address, Ipv6Address, NLengthVector, TorSerde, VersionsVector,
    WireIpAddress, WireString, WireTimestamp,
};

#[test]
fn test_u8() {
    let mut buffer = ByteSink::new();

    let number = 0x45u8;

    number.bin_serialise_into(&mut buffer).unwrap();

    assert_eq!(buffer.as_bytes().as_slice(), &[0x45]);

    let mut source = ByteSource::new(buffer.into_bytes());
    let d_result = u8::bin_deserialise_from(&mut source).unwrap();

    assert_eq!(d_result, number);
}

#[test]
fn test_u16() {
    let mut buffer = ByteSink::new();

    let number = 0x39e3u16;

    number.bin_serialise_into(&mut buffer).unwrap();

    assert_eq!(buffer.as_bytes().as_slice(), &[0x39, 0xe3]);

    let mut source = ByteSource::new(buffer.into_bytes());
    let d_result = u16::bin_deserialise_from(&mut source).unwrap();

    assert_eq!(d_result, number);
}

#[test]
fn test_u32() {
    let mut buffer = ByteSink::new();

    let number = 0x7e38d1a0u32;

    number.bin_serialise_into(&mut buffer).unwrap();

    assert_eq!(buffer.as_bytes().as_slice(), &[0x7e, 0x38, 0xd1, 0xa0]);

    let mut source = ByteSource::new(buffer.into_bytes());
    let d_result = u32::bin_deserialise_from(&mut source).unwrap();

    assert_eq!(d_result, number);
}

#[test]
fn test_u64_round_trip() {
    let mut buffer = ByteSink::new();

    let number = 0x0123_4567_89ab_cdefu64;

    let written = number.bin_serialise_into(&mut buffer).unwrap();

    assert_eq!(written, 8);
    assert_eq!(
        buffer.as_bytes().as_slice(),
        &[0x01, 0x23, 0x45, 0x67, 0x89, 0xab, 0xcd, 0xef]
    );

    let mut source = ByteSource::new(buffer.into_bytes());
    let d_result = u64::bin_deserialise_from(&mut source).unwrap();

    assert_eq!(d_result, number);
}

#[test]
fn test_u128() {
    let mut buffer = ByteSink::new();

    let number = 0x298bf077459127438fe12329707bcd4bu128;

    number.bin_serialise_into(&mut buffer).unwrap();

    assert_eq!(
        buffer.as_bytes().as_slice(),
        &[
            0x29, 0x8b, 0xf0, 0x77, 0x45, 0x91, 0x27, 0x43, 0x8f, 0xe1, 0x23, 0x29, 0x70, 0x7b,
            0xcd, 0x4b
        ]
    );

    let mut source = ByteSource::new(buffer.into_bytes());
    let d_result = u128::bin_deserialise_from(&mut source).unwrap();

    assert_eq!(d_result, number);
}

#[test]
fn test_timestamp() {
    let mut buffer = ByteSink::new();

    let time = WireTimestamp::new(1431648000);

    time.bin_serialise_into(&mut buffer).unwrap();

    assert_eq!(buffer.as_bytes().as_slice(), &[85, 85, 55, 0]);

    let mut source = ByteSource::new(buffer.into_bytes());
    let d_time = WireTimestamp::bin_deserialise_from(&mut source).unwrap();

    assert_eq!(d_time, time);
}

#[test]
fn test_timestamp_list() {
    let wrap = NLengthVector::<_, 1>::from(vec![0u16, 23, 86, 35, 96, 83]);

    let mut buffer = ByteSink::new();

    wrap.bin_serialise_into(&mut buffer).unwrap();

    assert_eq!(
        buffer.as_bytes().as_slice(),
        &[6u8, 0, 0, 0, 23, 0, 86, 0, 35, 0, 96, 0, 83]
    );

    let mut source = ByteSource::new(buffer.into_bytes());
    let d_wrap = NLengthVector::<u16, 1>::bin_deserialise_from(&mut source).unwrap();

    assert_eq!(Vec::from(wrap), Vec::from(d_wrap))
}

#[test]
fn test_array() {
    let mut buffer = ByteSink::new();

    let array = [0u8, 54, 34, 85, 78, 45, 8];

    array.bin_serialise_into(&mut buffer).unwrap();

    assert_eq!(buffer.as_bytes().as_slice(), &array);

    let mut source = ByteSource::new(buffer.into_bytes());
    let d_array = <[u8; 7]>::bin_deserialise_from(&mut source).unwrap();

    assert_eq!(d_array, array)
}

#[test]
fn test_ipv4() {
    let mut buffer = ByteSink::new();

    let ipv4 = Ipv4Address::new(245, 67, 12, 34);

    ipv4.bin_serialise_into(&mut buffer).unwrap();

    assert_eq!(buffer.as_bytes().as_slice(), &[245, 67, 12, 34]);

    let mut source = ByteSource::new(buffer.into_bytes());
    let d_ipv4 = Ipv4Address::bin_deserialise_from(&mut source).unwrap();

    assert_eq!(d_ipv4, ipv4);
}

#[test]
fn test_ipv6() {
    let mut buffer = ByteSink::new();

    let ipv6 = Ipv6Address::new(0xfc86_6e01_204f_498a_33cf_b30a_6171_e74f);

    ipv6.bin_serialise_into(&mut buffer).unwrap();

    assert_eq!(
        buffer.as_bytes().as_slice(),
        &[
            0xfc, 0x86, 0x6e, 0x01, 0x20, 0x4f, 0x49, 0x8a, 0x33, 0xcf, 0xb3, 0x0a, 0x61, 0x71,
            0xe7, 0x4f
        ]
    );

    let mut source = ByteSource::new(buffer.into_bytes());
    let d_ipv6 = Ipv6Address::bin_deserialise_from(&mut source).unwrap();

    assert_eq!(d_ipv6, ipv6);
}

#[test]
fn test_ipaddr() {
    let mut buffer = ByteSink::new();

    let ip = WireIpAddress::V4(Ipv4Address::new(227, 82, 127, 3));

    ip.bin_serialise_into(&mut buffer).unwrap();

    assert_eq!(buffer.as_bytes().as_slice(), &[4, 4, 227, 82, 127, 3]);

    let mut source = ByteSource::new(buffer.into_bytes());
    let d_ip = WireIpAddress::bin_deserialise_from(&mut source).unwrap();

    assert_eq!(ip, d_ip);
}

#[test]
fn test_string() {
    let mut buffer = ByteSink::new();

    let string = WireString::new(b"abcdefg".to_vec()).unwrap();

    string.bin_serialise_into(&mut buffer).unwrap();

    assert_eq!(
        buffer.as_bytes().as_slice(),
        &[97, 98, 99, 100, 101, 102, 103, 0]
    );

    let mut source = ByteSource::new(buffer.into_bytes());
    let d_string = WireString::bin_deserialise_from(&mut source).unwrap();

    assert_eq!(string, d_string);
}

#[test]
fn test_versions_vector() {
    let mut buffer = ByteSink::new();

    let list = vec![3, 4];

    let length = list.len();

    let wrap = VersionsVector::from(list);

    wrap.bin_serialise_elements_into(&mut buffer).unwrap();

    assert_eq!(buffer.as_bytes().as_slice(), &[0, 3, 0, 4]);

    let mut source = ByteSource::new(buffer.into_bytes());
    let d_wrap =
        VersionsVector::bin_deserialise_elements_from(&mut source, length as u32).unwrap();

    assert_eq!(Vec::from(wrap), Vec::from(d_wrap));
}

use bolt_wire::bigsize::BigSize;
use bolt_wire::ser::{DecodeError, ReadTrackingReader, Readable, Writeable};
use bolt_wire::tlv::{
    decode_amount, decode_cltv_expiry, decode_short_channel_id, PointAmount, TLVRecord, TLVStream,
    Value,
};

const NODE_ID: &str = "023da092f6980e58d2c037173180e9a465476026ee50f96695963e8efe436f54eb";

fn read_stream(stream: &str) -> Result<TLVStream, DecodeError> {
    let bytes = hex::decode(stream).expect("input");
    let mut buff = ReadTrackingReader::new(&bytes);
    Readable::read(&mut buff)
}

fn do_test_err(stream: &str, err: DecodeError) {
    let expected: Result<TLVStream, DecodeError> = read_stream(stream);
    assert_eq!(expected.unwrap_err(), err, "{}", stream);
}

/// The following TLV streams in either namespace should correctly decode, and be ignored
#[test]
fn tlv_stream_decode_success_ignored() {
    let test_vectors = [
        "",
        "2100",
        "fd020100",
        "fd00fd00",
        "fd00ff00",
        "fe0200000100",
        "ff020000000000000100",
    ];

    for vector in test_vectors {
        let stream: TLVStream = read_stream(vector).expect("no failure");
        assert_eq!(stream.to_string(), "");
    }
}

/// The following TLV streams in `n1` namespace should correctly decode, with the values given
#[test]
fn tlv_stream_decode_success_values() {
    let test_vectors = [
        ("0100", "tlv1 amount_msat=0"),
        ("010101", "tlv1 amount_msat=1"),
        ("01020100", "tlv1 amount_msat=256"),
        ("0103010000", "tlv1 amount_msat=65536"),
        ("010401000000", "tlv1 amount_msat=16777216"),
        ("01050100000000", "tlv1 amount_msat=4294967296"),
        ("0106010000000000", "tlv1 amount_msat=1099511627776"),
        ("010701000000000000", "tlv1 amount_msat=281474976710656"),
        ("01080100000000000000", "tlv1 amount_msat=72057594037927936"),
        ("02080000000000000226", "tlv2 scid=0x0x550"),
        (
            "0331023da092f6980e58d2c037173180e9a465476026ee50f96695963e8efe436f54eb00000000000000010000000000000002",
            "tlv3 node_id=023da092f6980e58d2c037173180e9a465476026ee50f96695963e8efe436f54eb amount_msat_1=1 amount_msat_2=2",
        ),
        ("fd00fe020226", "tlv4 cltv_delta=550"),
    ];

    for vector in test_vectors {
        let stream: TLVStream = read_stream(vector.0).expect("no failure");
        assert_eq!(stream.to_string(), vector.0, "{}", vector.1);
    }
}

#[test]
fn tlv_stream_decode_failure_any_namespace() {
    do_test_err("fd", DecodeError::ShortRead);
    do_test_err("fd01", DecodeError::ShortRead);
    do_test_err("fd000100", DecodeError::InvalidData);
    do_test_err("fd0101", DecodeError::ShortRead);
    do_test_err("0ffd", DecodeError::ShortRead);
    do_test_err("0ffd26", DecodeError::ShortRead);
    do_test_err("0ffd2602", DecodeError::ShortRead);
    do_test_err("0ffd000100", DecodeError::InvalidData);
    do_test_err(
        "0ffd0201000000000000000000000000000000000000000000000000000000000\
        0000000000000000000000000000000000000000000000000000000000000000000000000000000000000000000\
        0000000000000000000000000000000000000000000000000000000000000000000000000000000000000000000\
        0000000000000000000000000000000000000000000000000000000000000000000000000000000000000000000\
        0000000000000000000000000000000000000000000000000000000000000000000000000000000000000000000\
        0000000000000000000000000000000000000000000000000000000000000000000000000000000000000000000\
        0000",
        DecodeError::ShortRead,
    );
}

#[test]
fn tlv_stream_decode_failure_either_namespace() {
    do_test_err("1200", DecodeError::UnknownRequiredFeature);
    do_test_err("fd010200", DecodeError::UnknownRequiredFeature);
    do_test_err("fe0100000200", DecodeError::UnknownRequiredFeature);
    do_test_err("ff010000000000000200", DecodeError::UnknownRequiredFeature);
}

#[test]
fn tlv_stream_decode_failure_n1_namespace() {
    do_test_err("0109ffffffffffffffffff", DecodeError::InvalidData);
    do_test_err("010100", DecodeError::InvalidData);
    do_test_err("01020001", DecodeError::InvalidData);
    do_test_err("0103000100", DecodeError::InvalidData);
    do_test_err("010400010000", DecodeError::InvalidData);
    do_test_err("01050001000000", DecodeError::InvalidData);
    do_test_err("0106000100000000", DecodeError::InvalidData);
    do_test_err("010700010000000000", DecodeError::InvalidData);
    do_test_err("01080001000000000000", DecodeError::InvalidData);
    do_test_err("020701010101010101", DecodeError::ShortRead);
    do_test_err("0209010101010101010101", DecodeError::InvalidData);
    do_test_err(
        "0321023da092f6980e58d2c037173180e9a465476026ee50f96695963e8efe436f54eb",
        DecodeError::ShortRead,
    );
    do_test_err(
        "0329023da092f6980e58d2c037173180e9a465476026ee50f96695963e8efe436f54eb0000000000000001",
        DecodeError::ShortRead,
    );
    do_test_err(
        "0330023da092f6980e58d2c037173180e9a465476026ee50f96695963e8efe436f54eb000000000000000100000000000001",
        DecodeError::ShortRead,
    );
    do_test_err(
        "0331043da092f6980e58d2c037173180e9a465476026ee50f96695963e8efe436f54eb00000000000000010000000000000002",
        DecodeError::InvalidData,
    );
    do_test_err(
        "0332023da092f6980e58d2c037173180e9a465476026ee50f96695963e8efe436f54eb0000000000000001000000000000000001",
        DecodeError::InvalidData,
    );
    do_test_err("fd00fe00", DecodeError::ShortRead);
    do_test_err("fd00fe0101", DecodeError::ShortRead);
    do_test_err("fd00fe03010101", DecodeError::InvalidData);
    do_test_err("0000", DecodeError::UnknownRequiredFeature);
}

/// Any appending of an invalid stream to a valid stream should trigger a decoding failure.
/// Any appending of a higher-numbered valid stream to a lower-numbered valid stream should not
/// trigger a decoding failure.
#[test]
fn tlv_stream_decode_failure_appending_n1() {
    do_test_err("0208000000000000022601012a", DecodeError::InvalidData);
    do_test_err("0208000000000000023102080000000000000451", DecodeError::InvalidData);
    do_test_err("1f000f012a", DecodeError::InvalidData);
    do_test_err("1f001f012a", DecodeError::InvalidData);
}

/// Any appending of an invalid stream to a valid stream should trigger a decoding failure.
/// Any appending of a higher-numbered valid stream to a lower-numbered valid stream should not
/// trigger a decoding failure.
#[test]
fn tlv_stream_decode_failure_appending_n2() {
    do_test_err("ffffffffffffffffff000100", DecodeError::InvalidData);
}

#[test]
fn empty_stream_has_no_records() {
    let stream = read_stream("").expect("no failure");
    assert_eq!(stream.len(), 0);
    assert!(stream.get(0).is_none());
    assert!(stream.encode().is_empty());
}

#[test]
fn zero_length_amount_is_zero() {
    let stream = read_stream("0100").expect("no failure");
    assert_eq!(stream.len(), 1);
    let record = stream.get(0).expect("one record");
    assert_eq!(record.record_type(), BigSize(1));
    assert_eq!(record.length(), BigSize(0));
    assert_eq!(record.value(), &Some(Value::Amount(0)));
    assert_eq!(hex::encode(stream.encode()), "0100");
    assert_eq!(stream.to_string(), "0100");
}

#[test]
fn widest_amount() {
    let stream = read_stream("01080100000000000000").expect("no failure");
    let record = stream.get(0).expect("one record");
    assert_eq!(record.value(), &Some(Value::Amount(72057594037927936)));
    assert_eq!(record.length(), BigSize(8));
    assert_eq!(stream.to_string(), "01080100000000000000");

    let stream = read_stream("0108ffffffffffffffff").expect("no failure");
    assert_eq!(stream.get(0).expect("one record").value(), &Some(Value::Amount(u64::MAX)));
}

#[test]
fn short_channel_id_keeps_its_bytes() {
    let stream = read_stream("02080000000000000226").expect("no failure");
    let record = stream.get(0).expect("one record");
    assert_eq!(record.record_type(), BigSize(2));
    assert_eq!(record.value(), &Some(Value::ShortChannelId([0, 0, 0, 0, 0, 0, 0x02, 0x26])));
}

#[test]
fn expiry_is_two_bytes_big_endian() {
    let stream = read_stream("fd00fe020226").expect("no failure");
    let record = stream.get(0).expect("one record");
    assert_eq!(record.record_type(), BigSize(254));
    assert_eq!(record.length(), BigSize(2));
    assert_eq!(record.value(), &Some(Value::CLTVExpiry(550)));
    // An expiry renders in two bytes whatever its size.
    let stream = read_stream("fd00fe020001").expect("no failure");
    assert_eq!(stream.get(0).expect("one record").value(), &Some(Value::CLTVExpiry(1)));
    assert_eq!(stream.to_string(), "fd00fe020001");
}

#[test]
fn point_with_amounts() {
    let input = format!("0331{}00000000000000010000000000000002", NODE_ID);
    let stream = read_stream(&input).expect("no failure");
    let record = stream.get(0).expect("one record");
    let mut point = [0u8; 33];
    point.copy_from_slice(&hex::decode(NODE_ID).expect("input"));
    assert_eq!(
        record.value(),
        &Some(Value::PointAmount(PointAmount { point, amount_msat_1: 1, amount_msat_2: 2 }))
    );
    assert_eq!(record.length(), BigSize(49));
}

#[test]
fn point_must_be_on_the_curve() {
    // The same bytes under a prefix that no compressed key has.
    let bad = format!("04{}", &NODE_ID[2..]);
    let mut bytes = hex::decode(format!("{}00000000000000010000000000000002", bad)).expect("input");
    assert_eq!(PointAmount::new(bytes.clone()), Err(DecodeError::InvalidData));
    // An x coordinate with no point above it.
    bytes[0] = 0x02;
    for b in bytes[1..33].iter_mut() {
        *b = 0;
    }
    bytes[32] = 5;
    assert_eq!(PointAmount::new(bytes.clone()), Err(DecodeError::InvalidData));
    // The key is not looked at where the length is wrong.
    bytes.truncate(48);
    assert_eq!(PointAmount::new(bytes.clone()), Err(DecodeError::ShortRead));
    bytes.extend_from_slice(&[0, 0]);
    assert_eq!(PointAmount::new(bytes), Err(DecodeError::InvalidData));
}

#[test]
fn point_amount_from_checked_bytes() {
    let bytes = hex::decode(format!("{}00000000000000010000000000000002", NODE_ID)).expect("input");
    let mut point = [0u8; 33];
    point.copy_from_slice(&bytes[..33]);
    assert_eq!(
        PointAmount::assemble(&bytes, true),
        Ok(PointAmount { point, amount_msat_1: 1, amount_msat_2: 2 })
    );
    assert_eq!(PointAmount::assemble(&bytes, false), Err(DecodeError::InvalidData));
    assert_eq!(PointAmount::assemble(&bytes[..48], true), Err(DecodeError::ShortRead));
    assert_eq!(PointAmount::assemble(&[], true), Err(DecodeError::ShortRead));
    let mut longer = bytes.clone();
    longer.push(0);
    assert_eq!(PointAmount::assemble(&longer, true), Err(DecodeError::InvalidData));
    assert_eq!(PointAmount::new(bytes), Ok(PointAmount { point, amount_msat_1: 1, amount_msat_2: 2 }));
}

#[test]
fn amount_decoder() {
    assert_eq!(decode_amount(&[]), Ok(0));
    assert_eq!(decode_amount(&[1]), Ok(1));
    assert_eq!(decode_amount(&[0xff]), Ok(255));
    assert_eq!(decode_amount(&[1, 0]), Ok(256));
    assert_eq!(decode_amount(&[0]), Err(DecodeError::InvalidData));
    assert_eq!(decode_amount(&[0, 1]), Err(DecodeError::InvalidData));
    assert_eq!(decode_amount(&[0xff; 8]), Ok(u64::MAX));
    assert_eq!(decode_amount(&[0xff; 9]), Err(DecodeError::InvalidData));
    assert_eq!(decode_amount(&[0; 9]), Err(DecodeError::InvalidData));
}

#[test]
fn short_channel_id_decoder() {
    assert_eq!(decode_short_channel_id(&[]), Err(DecodeError::ShortRead));
    assert_eq!(decode_short_channel_id(&[1; 7]), Err(DecodeError::ShortRead));
    assert_eq!(decode_short_channel_id(&[1, 2, 3, 4, 5, 6, 7, 8]), Ok([1, 2, 3, 4, 5, 6, 7, 8]));
    assert_eq!(decode_short_channel_id(&[1; 9]), Err(DecodeError::InvalidData));
}

#[test]
fn expiry_decoder() {
    assert_eq!(decode_cltv_expiry(&[]), Err(DecodeError::ShortRead));
    assert_eq!(decode_cltv_expiry(&[1]), Err(DecodeError::ShortRead));
    assert_eq!(decode_cltv_expiry(&[0x02, 0x26]), Ok(550));
    assert_eq!(decode_cltv_expiry(&[0, 0]), Ok(0));
    assert_eq!(decode_cltv_expiry(&[1, 1, 1]), Err(DecodeError::InvalidData));
}

#[test]
fn value_dispatch_by_type() {
    assert_eq!(Value::decode(1, vec![]), Ok(Value::Amount(0)));
    assert_eq!(Value::decode(1, vec![0x2a]), Ok(Value::Amount(42)));
    assert_eq!(Value::decode(2, vec![0; 8]), Ok(Value::ShortChannelId([0; 8])));
    assert_eq!(Value::decode(2, vec![]), Err(DecodeError::ShortRead));
    assert_eq!(Value::decode(3, vec![]), Err(DecodeError::ShortRead));
    assert_eq!(Value::decode(254, vec![0x02, 0x26]), Ok(Value::CLTVExpiry(550)));
    assert_eq!(Value::decode(254, vec![]), Err(DecodeError::ShortRead));
    assert_eq!(Value::decode(0, vec![]), Err(DecodeError::UnknownRequiredFeature));
    assert_eq!(Value::decode(4, vec![1, 2]), Err(DecodeError::UnknownRequiredFeature));
    assert_eq!(Value::decode(256, vec![]), Err(DecodeError::UnknownRequiredFeature));
    assert_eq!(Value::decode(u64::MAX - 1, vec![]), Err(DecodeError::UnknownRequiredFeature));
    assert_eq!(Value::decode(5, vec![1, 2]), Ok(Value::Unknown(vec![1, 2])));
    assert_eq!(Value::decode(255, vec![]), Ok(Value::Unknown(vec![])));
    assert_eq!(Value::decode(u64::MAX, vec![9]), Ok(Value::Unknown(vec![9])));
}

#[test]
fn unknown_odd_type_is_kept_and_not_rendered() {
    let stream = read_stream("1f010f").expect("no failure");
    assert_eq!(stream.len(), 1);
    let record = stream.get(0).expect("one record");
    assert_eq!(record.record_type(), BigSize(0x1f));
    assert_eq!(record.length(), BigSize(1));
    assert_eq!(record.value(), &Some(Value::Unknown(vec![0x0f])));
    assert_eq!(record.to_string(), "");
    assert_eq!(stream.to_string(), "");
    assert!(stream.encode().is_empty());
    let mut wire = Vec::new();
    assert_eq!(stream.write_wire(&mut wire), 3);
    assert_eq!(hex::encode(wire), "1f010f");
}

#[test]
fn unknown_even_type_is_refused_after_its_bytes() {
    let bytes = hex::decode("12020102aa").expect("input");
    let mut buff = ReadTrackingReader::new(&bytes);
    let record: Result<TLVRecord, DecodeError> = Readable::read(&mut buff);
    assert_eq!(record, Err(DecodeError::UnknownRequiredFeature));
    // Type, length and value are taken; what follows is not.
    assert_eq!(buff.read, &[0xaau8][..]);
    assert!(buff.have_read);
}

#[test]
fn ascending_types_decode_in_order() {
    let stream = read_stream("02080000000000000226030101").err();
    // The second record is a point of one byte: too short.
    assert_eq!(stream, Some(DecodeError::ShortRead));

    let stream = read_stream("010101020800000000000002260501aafd00fe020226").expect("no failure");
    assert_eq!(stream.len(), 4);
    let types: Vec<u64> = (0..4).map(|i| stream.get(i).expect("in range").record_type().0).collect();
    assert_eq!(types, vec![1u64, 2, 5, 254]);
    assert!(stream.get(4).is_none());
    // The rendering leaves the record of type 5 out; the wire form keeps it.
    assert_eq!(stream.to_string(), "01010102080000000000000226fd00fe020226");
    let mut wire = Vec::new();
    assert_eq!(stream.write_wire(&mut wire), 22);
    assert_eq!(hex::encode(wire), "010101020800000000000002260501aafd00fe020226");
}

#[test]
fn order_counts_ignored_records() {
    // Two ignored records in descending order.
    do_test_err("1f000f00", DecodeError::InvalidData);
    // An ignored record between two kept ones must still ascend.
    do_test_err("0101010501aa0208000000000000022600", DecodeError::InvalidData);
    assert!(read_stream("0101010501aafd00fe020226").is_ok());
}

#[test]
fn duplicate_and_descending_types() {
    do_test_err("01000100", DecodeError::InvalidData);
    do_test_err("0100010101", DecodeError::InvalidData);
    // A second record that is cut short fails as such before its place in
    // the order is looked at.
    do_test_err("01000101", DecodeError::ShortRead);
    do_test_err("020800000000000002260100", DecodeError::InvalidData);
    do_test_err("02080000000000000226010101", DecodeError::InvalidData);
}

#[test]
fn record_error_comes_before_order_error() {
    // The second record has a lower type and is also malformed: its own
    // error is the one reported.
    do_test_err("02080000000000000226010100", DecodeError::InvalidData);
    do_test_err("020800000000000002260000", DecodeError::UnknownRequiredFeature);
    do_test_err("0208000000000000022601", DecodeError::ShortRead);
}

#[test]
fn stream_cut_inside_a_record() {
    do_test_err("01", DecodeError::ShortRead);
    do_test_err("0102", DecodeError::ShortRead);
    do_test_err("010201", DecodeError::ShortRead);
    do_test_err("010001", DecodeError::ShortRead);
    // A length that no source could hold.
    do_test_err("05ffffffffffffffffff0102", DecodeError::ShortRead);
}

#[test]
fn stream_read_takes_the_whole_source() {
    let bytes = hex::decode("010101fd00fe020226").expect("input");
    let mut buff = ReadTrackingReader::new(&bytes);
    let stream: TLVStream = Readable::read(&mut buff).expect("no failure");
    assert_eq!(stream.len(), 2);
    assert!(buff.read.is_empty());
    assert!(buff.have_read);

    let bytes: [u8; 0] = [];
    let mut buff = ReadTrackingReader::new(&bytes);
    let stream: TLVStream = Readable::read(&mut buff).expect("no failure");
    assert_eq!(stream.len(), 0);
    assert!(!buff.have_read);
}

#[test]
fn record_rendering_and_wire() {
    let bytes = hex::decode("01020100").expect("input");
    let mut buff = ReadTrackingReader::new(&bytes);
    let record: TLVRecord = Readable::read(&mut buff).expect("no failure");
    assert_eq!(record.to_string(), "01020100");
    assert_eq!(record.encode(), bytes);
    let mut wire = vec![0xeeu8];
    assert_eq!(record.write_wire(&mut wire), 4);
    assert_eq!(hex::encode(wire), "ee01020100");
}

#[test]
fn value_bytes() {
    let mut out = Vec::new();
    Value::Amount(0).write(&mut out);
    assert!(out.is_empty());
    Value::Amount(0x0100).write(&mut out);
    Value::CLTVExpiry(1).write(&mut out);
    Value::ShortChannelId([1, 2, 3, 4, 5, 6, 7, 8]).write(&mut out);
    Value::Unknown(vec![0xaa]).write(&mut out);
    assert_eq!(hex::encode(&out), "010000010102030405060708aa");
    let mut out = Vec::new();
    let mut point = [0u8; 33];
    point.copy_from_slice(&hex::decode(NODE_ID).expect("input"));
    Value::PointAmount(PointAmount { point, amount_msat_1: 1, amount_msat_2: u64::MAX }).write(&mut out);
    assert_eq!(hex::encode(&out), format!("{}0000000000000001ffffffffffffffff", NODE_ID));
}

fn wire_of(stream: &TLVStream) -> String {
    let mut wire = Vec::new();
    stream.write_wire(&mut wire);
    hex::encode(wire)
}

#[test]
fn appending_a_higher_stream_decodes_to_both() {
    let first = "010101020800000000000002260501aa";
    let second = "0701bbfd00fe020226";
    let a = read_stream(first).expect("no failure");
    let b = read_stream(second).expect("no failure");
    let joined = read_stream(&format!("{}{}", first, second)).expect("no failure");
    assert_eq!(joined.len(), a.len() + b.len());
    for i in 0..a.len() {
        assert_eq!(joined.get(i), a.get(i));
    }
    for i in 0..b.len() {
        assert_eq!(joined.get(a.len() + i), b.get(i));
    }
    // Either side may be empty.
    assert_eq!(read_stream(&format!("{}{}", first, "")).expect("no failure"), a);
    assert_eq!(read_stream(&format!("{}{}", "", second)).expect("no failure"), b);
}

#[test]
fn appending_an_equal_or_lower_stream_fails() {
    let first = "010101020800000000000002260501aa";
    for second in ["0501bb", "0301", "02080000000000000226", "0100", "0701bb0601cc"] {
        let alone = read_stream(second);
        let joined = read_stream(&format!("{}{}", first, second));
        assert!(joined.is_err(), "{}", second);
        if alone.is_ok() {
            assert_eq!(joined.unwrap_err(), DecodeError::InvalidData, "{}", second);
        }
    }
}

#[test]
fn appending_an_invalid_stream_fails() {
    let first = "0101010501aa";
    for second in ["0601", "07", "0702", "0801bb", "fd000700", "0701bb0701bb"] {
        assert!(read_stream(second).is_err(), "{}", second);
        assert!(read_stream(&format!("{}{}", first, second)).is_err(), "{}", second);
    }
}

#[test]
fn wire_of_a_decoded_stream_is_the_input() {
    let point = format!("0331{}00000000000000010000000000000002", NODE_ID);
    let all = format!("0100020800000000000002260505aabbccddeefd00fe020226{}", "fd010103010203");
    for input in ["", "0100", "010101", "0108ffffffffffffffff", "1f00", "1f010f", point.as_str(), all.as_str()] {
        let stream = read_stream(input).expect("no failure");
        assert_eq!(wire_of(&stream), input);
    }
}

#[test]
fn types_of_a_decoded_stream_ascend() {
    let stream = read_stream("0100020800000000000002260505aabbccddeefd00fe020226fd010103010203")
        .expect("no failure");
    assert_eq!(stream.len(), 5);
    for i in 1..stream.len() {
        let before = stream.get(i - 1).expect("in range").record_type().0;
        let after = stream.get(i).expect("in range").record_type().0;
        assert!(before < after);
    }
}

#[test]
fn length_is_the_size_of_the_value() {
    let stream = read_stream("0100020800000000000002260505aabbccddeefd00fe020226fd010103010203")
        .expect("no failure");
    for i in 0..stream.len() {
        let record = stream.get(i).expect("in range");
        let mut bytes = Vec::new();
        record.value().as_ref().expect("a value").write(&mut bytes);
        assert_eq!(bytes.len() as u64, record.length().0);
    }
}

#[test]
fn ascending_known_types_decode() {
    let input = format!("02080000000000000226{}", format!("0331{}00000000000000010000000000000002", NODE_ID));
    let stream = read_stream(&input).expect("no failure");
    assert_eq!(stream.len(), 2);
    assert!(!stream.is_empty());
    assert_eq!(stream.get(0).expect("in range").record_type(), BigSize(2));
    assert_eq!(stream.get(1).expect("in range").record_type(), BigSize(3));
    assert_eq!(stream.to_string(), input);
    // A point cut to one byte is a short read, whatever its place.
    do_test_err("02080000000000000226030101", DecodeError::ShortRead);
}

use bolt_wire::msgs::Init;
use bolt_wire::ser::{DecodeError, ReadTrackingReader, Readable, Writeable};

fn read_init(input: &str) -> Result<Init, DecodeError> {
    let bytes = hex::decode(input).expect("input");
    let mut buff = ReadTrackingReader::new(&bytes);
    Readable::read(&mut buff)
}

#[test]
fn valid_init_msgs() {
    let test_vectors = ["001000000000", "001000000000c9012acb0104"];

    for vector in test_vectors {
        let msg: Init = read_init(vector).expect("no failure");
        assert_eq!(msg.to_string(), vector);
    }
}

#[test]
fn invalid_init_msgs() {
    let test_vectors = [
        ("00100000000001", DecodeError::ShortRead),
        ("001000000000ca012a", DecodeError::UnknownRequiredFeature),
        ("001000000000c90101c90102", DecodeError::InvalidData),
    ];

    for vector in test_vectors {
        let msg: Result<Init, DecodeError> = read_init(vector.0);
        assert_eq!(msg.unwrap_err(), vector.1);
    }
}

#[test]
fn init_fields() {
    let msg = read_init("0010000201020003aabbcc0101fffd00fe020226").expect("no failure");
    assert_eq!(msg.typ(), 16);
    assert_eq!(msg.gflen(), 2);
    assert_eq!(msg.flen(), 3);
    assert_eq!(msg.global_features(), &vec![1u8, 2]);
    assert_eq!(msg.features(), &vec![0xaau8, 0xbb, 0xcc]);
    assert_eq!(msg.init_tlvs().len(), 2);
    assert_eq!(msg.init_tlvs().to_string(), "0101fffd00fe020226");
    assert_eq!(msg.to_string(), "0010000201020003aabbcc0101fffd00fe020226");
    assert_eq!(hex::encode(msg.encode()), "0010000201020003aabbcc0101fffd00fe020226");
}

#[test]
fn init_cut_short() {
    for input in ["", "00", "0010", "001000", "00100001", "0010000000", "001000000001", "0010000000000101"]
    {
        assert_eq!(read_init(input).unwrap_err(), DecodeError::ShortRead, "{}", input);
    }
}

use bolt_wire::keys::check_public_key;

const NODE_ID: &str = "023da092f6980e58d2c037173180e9a465476026ee50f96695963e8efe436f54eb";

#[test]
fn a_compressed_key_is_a_public_key() {
    let key = hex::decode(NODE_ID).expect("input");
    assert!(check_public_key(&key));
    // The generator of the curve.
    let generator =
        hex::decode("0279be667ef9dcbbac55a06295ce870b07029bfcdb2dce28d959f2815b16f81798").expect("input");
    assert!(check_public_key(&generator));
}

#[test]
fn other_bytes_are_not() {
    let key = hex::decode(NODE_ID).expect("input");
    assert!(!check_public_key(&[]));
    assert!(!check_public_key(&key[..32]));
    let mut longer = key.clone();
    longer.push(0);
    assert!(!check_public_key(&longer));
    let mut prefixed = key.clone();
    prefixed[0] = 0x04;
    assert!(!check_public_key(&prefixed));
    prefixed[0] = 0x00;
    assert!(!check_public_key(&prefixed));
    // No point of the curve has this x coordinate.
    let mut off = vec![0u8; 33];
    off[0] = 0x02;
    off[32] = 5;
    assert!(!check_public_key(&off));
    // An x coordinate that is not below the field's prime.
    let mut over = vec![0xffu8; 33];
    over[0] = 0x02;
    assert!(!check_public_key(&over));
}

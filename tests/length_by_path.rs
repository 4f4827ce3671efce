fn build_length(n: usize) -> Vec<u8> {
    red_asn1::encode_length(n)
}

fn parse_length(raw: Vec<u8>) -> (usize, usize) {
    red_asn1::decode_length(&raw).unwrap()
}

#[test]
fn encode_length() {
    assert_eq!(vec![0x0], build_length(0));
    assert_eq!(vec![0x1], build_length(1));
    assert_eq!(vec![0x7F], build_length(127));
    assert_eq!(vec![0x81, 0x80], build_length(128));
    assert_eq!(vec![0x81, 0xFF], build_length(255));
    assert_eq!(vec![0x82, 0x01, 0x00], build_length(256));
    assert_eq!(vec![0x82, 0xFF, 0xFF], build_length(65535));
    assert_eq!(vec![0x83, 0x01, 0x00, 0x00], build_length(65536));

    assert_eq!(vec![0x84, 0x10, 0xf3, 0x91, 0xbd], build_length(0x10f391bd));
    assert_eq!(vec![0x84, 0x0f, 0xc4, 0x69, 0x89], build_length(0xfc46989));
    assert_eq!(vec![0x84, 0x31, 0xb2, 0x50, 0x42], build_length(0x31b25042));
    assert_eq!(vec![0x84, 0x13, 0x93, 0xaa, 0x93], build_length(0x1393aa93));
    assert_eq!(vec![0x84, 0x05, 0x71, 0x6f, 0xa9], build_length(0x5716fa9));
}

#[test]
fn decode_length() {
    assert_eq!((0, 1), parse_length(vec![0x0]));
    assert_eq!((1, 1), parse_length(vec![0x1]));
    assert_eq!((127, 1), parse_length(vec![0x7F]));
    assert_eq!((128, 2), parse_length(vec![0x81, 0x80]));
    assert_eq!((255, 2), parse_length(vec![0x81, 0xFF]));
    assert_eq!((256, 3), parse_length(vec![0x82, 0x01, 0x00]));
    assert_eq!((65535, 3), parse_length(vec![0x82, 0xFF, 0xFF]));
    assert_eq!((65536, 4), parse_length(vec![0x83, 0x01, 0x00, 0x00]));

    assert_eq!((0x10f391bd, 5), parse_length(vec![0x84, 0x10, 0xf3, 0x91, 0xbd]));
    assert_eq!((0xfc46989, 5), parse_length(vec![0x84, 0x0f, 0xc4, 0x69, 0x89]));
    assert_eq!((0x31b25042, 5), parse_length(vec![0x84, 0x31, 0xb2, 0x50, 0x42]));
    assert_eq!((0x1393aa93, 5), parse_length(vec![0x84, 0x13, 0x93, 0xaa, 0x93]));
    assert_eq!((0x5716fa9, 5), parse_length(vec![0x84, 0x05, 0x71, 0x6f, 0xa9]));
}

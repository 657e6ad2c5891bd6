use parachain_consensus::hash::BlockHash;
use parachain_consensus::header::decode_header;

fn header_bytes(number: &[u8], tag: u8) -> Vec<u8> {
    let mut v = vec![tag; 32];
    v.extend_from_slice(number);
    v.extend_from_slice(&[1u8; 32]);
    v.extend_from_slice(&[2u8; 32]);
    v.push(0);
    v
}

#[test]
fn decodes_single_byte_number() {
    let bytes = header_bytes(&[20], 7);
    let h = decode_header(&bytes).expect("decodes");
    assert_eq!(h.number, 5);
    assert_eq!(h.encoded, bytes);
}

#[test]
fn decodes_two_byte_number() {
    // 300 in compact form: (300 << 2) | 1, little endian.
    let h = decode_header(&header_bytes(&[0xB1, 0x04], 7)).expect("decodes");
    assert_eq!(h.number, 300);
}

#[test]
fn hash_is_blake2_256_of_encoding() {
    let h = decode_header(&header_bytes(&[20], 7)).expect("decodes");
    let expected: [u8; 32] = [
        209, 119, 27, 233, 13, 95, 91, 190, 130, 248, 8, 214, 174, 187, 131, 221, 195, 22, 83, 16,
        208, 234, 226, 88, 67, 254, 154, 173, 247, 148, 35, 216,
    ];
    assert_eq!(h.hash, BlockHash::from_bytes(expected));
    assert_ne!(h.hash.bytes.to_vec(), h.encoded[..32].to_vec());
}

#[test]
fn different_headers_have_different_hashes() {
    let a = decode_header(&header_bytes(&[20], 7)).unwrap();
    let b = decode_header(&header_bytes(&[20], 8)).unwrap();
    assert_ne!(a.hash, b.hash);
    assert!(a.hash.same_as(&a.hash));
}

#[test]
fn short_input_does_not_decode() {
    assert!(decode_header(&[0u8; 40]).is_none());
    assert!(decode_header(&[]).is_none());
}

#[test]
fn non_canonical_number_does_not_decode() {
    // A two-byte compact holding 5, which fits one byte.
    assert!(decode_header(&header_bytes(&[0x15, 0x00], 7)).is_none());
}

use oauth_loopback::{decode, encode};

#[test]
fn encode_escapes_reserved_bytes() {
    assert_eq!(encode(b"a b/c~-._Z9"), b"a%20b%2Fc~-._Z9".to_vec());
    assert_eq!(encode(b"http://127.0.0.1:1420/callback"), b"http%3A%2F%2F127.0.0.1%3A1420%2Fcallback".to_vec());
    assert_eq!(encode(&[0u8, 255u8]), b"%00%FF".to_vec());
    assert_eq!(encode(b""), Vec::<u8>::new());
}

#[test]
fn decode_reads_escapes_of_either_case() {
    assert_eq!(decode(b"a%2fb%2F%41"), b"a/b/A".to_vec());
    assert_eq!(decode(b"100%"), b"100%".to_vec());
    assert_eq!(decode(b"%zz%4"), b"%zz%4".to_vec());
}

#[test]
fn decode_undoes_encode_for_every_byte() {
    let all: Vec<u8> = (0u8..=255u8).collect();
    assert_eq!(decode(&encode(&all)), all);
}

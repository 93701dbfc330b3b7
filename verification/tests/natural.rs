use elgamal::natural::Natural;

#[test]
fn from_u64_round_trips() {
    for x in [0u64, 1, 2, 255, 256, 65_535, 65_536, 4_294_967_296, u64::MAX - 1, u64::MAX] {
        assert_eq!(Natural::from_u64(x).to_u64(), Some(x));
    }
}

#[test]
fn from_u64_writes_big_endian_bytes() {
    let bytes = Natural::from_u64(0x0102_0304_0506_0708).to_bytes_be();
    assert_eq!(bytes, vec![1, 2, 3, 4, 5, 6, 7, 8]);
}

#[test]
fn from_bytes_be_reads_most_significant_byte_first() {
    assert_eq!(Natural::from_bytes_be(&[]).to_u64(), Some(0));
    assert_eq!(Natural::from_bytes_be(&[0]).to_u64(), Some(0));
    assert_eq!(Natural::from_bytes_be(b"A").to_u64(), Some(65));
    assert_eq!(Natural::from_bytes_be(b"AB").to_u64(), Some(16_706));
    assert_eq!(Natural::from_bytes_be(&[1, 0]).to_u64(), Some(256));
    assert_eq!(Natural::from_bytes_be(&[0, 0, 1, 0]).to_u64(), Some(256));
}

#[test]
fn to_u64_refuses_what_does_not_fit() {
    let nine_bytes = [1u8, 0, 0, 0, 0, 0, 0, 0, 0];
    assert_eq!(Natural::from_bytes_be(&nine_bytes).to_u64(), None);
    let largest = [0u8, 255, 255, 255, 255, 255, 255, 255, 255];
    assert_eq!(Natural::from_bytes_be(&largest).to_u64(), Some(u64::MAX));
    assert_eq!(Natural::from_bytes_be(b"Hello, ElGamal!").to_u64(), None);
}

#[test]
fn to_bytes_be_keeps_the_value() {
    let n = Natural::from_bytes_be(b"Hello, ElGamal!");
    assert_eq!(n.to_bytes_be(), b"Hello, ElGamal!".to_vec());
}

#[test]
fn clone_keeps_the_value() {
    let n = Natural::from_u64(123_456_789);
    assert_eq!(n.clone().to_u64(), Some(123_456_789));
}

use borsh::{BorshDeserialize, BorshSerialize};
use near_gas::binary::ENCODED_LEN;
use near_gas::{Gas, GasError};

#[test]
fn to_bytes_is_eight_bytes_least_significant_first() {
    assert_eq!(ENCODED_LEN, 8);
    assert_eq!(Gas(0).to_bytes(), vec![0, 0, 0, 0, 0, 0, 0, 0]);
    assert_eq!(Gas(1).to_bytes(), vec![1, 0, 0, 0, 0, 0, 0, 0]);
    assert_eq!(Gas(256).to_bytes(), vec![0, 1, 0, 0, 0, 0, 0, 0]);
    assert_eq!(
        Gas(0x0102_0304_0506_0708).to_bytes(),
        vec![8, 7, 6, 5, 4, 3, 2, 1]
    );
    assert_eq!(Gas(u64::MAX).to_bytes(), vec![0xff; 8]);
    assert_eq!(
        Gas(1_000_000_000_000).to_bytes(),
        1_000_000_000_000u64.to_le_bytes().to_vec()
    );
}

#[test]
fn from_bytes_reads_eight_bytes() {
    assert_eq!(Gas::from_bytes(&[0; 8]), Ok(Gas(0)));
    assert_eq!(Gas::from_bytes(&[1, 0, 0, 0, 0, 0, 0, 0]), Ok(Gas(1)));
    assert_eq!(
        Gas::from_bytes(&[8, 7, 6, 5, 4, 3, 2, 1]),
        Ok(Gas(0x0102_0304_0506_0708))
    );
    assert_eq!(Gas::from_bytes(&[0xff; 8]), Ok(Gas(u64::MAX)));
}

#[test]
fn from_bytes_fails_on_a_short_buffer() {
    for len in 0..8 {
        let buffer = vec![0xab; len];
        assert_eq!(Gas::from_bytes(&buffer), Err(GasError::DecodeError));
    }
}

#[test]
fn from_bytes_reads_the_front_of_a_longer_buffer() {
    assert_eq!(
        Gas::from_bytes(&[2, 0, 0, 0, 0, 0, 0, 0, 9, 9, 9]),
        Ok(Gas(2))
    );
}

#[test]
fn binary_round_trip() {
    for units in [
        0u64,
        1,
        255,
        256,
        65_535,
        1_000_000_000_000,
        0x0102_0304_0506_0708,
        u64::MAX - 1,
        u64::MAX,
    ] {
        let bytes = Gas(units).to_bytes();
        assert_eq!(bytes.len(), 8);
        assert_eq!(Gas::from_bytes(&bytes), Ok(Gas(units)));
    }
}

#[test]
fn binary_form_is_the_borsh_form_of_the_units() {
    for units in [0u64, 1, 300_000_000_000_000, 0x0102_0304_0506_0708, u64::MAX] {
        let ours = Gas(units).to_bytes();
        assert_eq!(ours, units.try_to_vec().unwrap());
        assert_eq!(Gas::from_bytes(&ours), Ok(Gas(u64::try_from_slice(&ours).unwrap())));
    }
}

#[test]
fn decoding_agrees_with_borsh_on_the_front_of_a_buffer() {
    let buffer = [8u8, 7, 6, 5, 4, 3, 2, 1, 0xaa, 0xbb];
    let mut rest: &[u8] = &buffer;
    let units = u64::deserialize(&mut rest).unwrap();
    assert_eq!(Gas::from_bytes(&buffer), Ok(Gas(units)));
    assert_eq!(rest.len(), buffer.len() - ENCODED_LEN);
    for len in 0..8 {
        let mut short: &[u8] = &buffer[..len];
        assert!(u64::deserialize(&mut short).is_err());
        assert_eq!(Gas::from_bytes(&buffer[..len]), Err(GasError::DecodeError));
    }
}

#[test]
fn binary_schema_names_one_u64_field() {
    let schema = Gas::binary_schema();
    assert_eq!(schema.declaration, "Gas");
    assert_eq!(schema.field, "u64");
    assert_eq!(schema.width, 8);
    assert_eq!(schema.field, <u64 as borsh::BorshSchema>::declaration());
    assert_eq!(schema.width, Gas(0).to_bytes().len());
}

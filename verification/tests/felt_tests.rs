use sniffooor::felt::{Felt, ShortStringError};

fn felt(v: u64) -> Felt {
    let mut bytes = [0u8; 32];
    bytes[24..].copy_from_slice(&v.to_be_bytes());
    Felt::from_bytes_be(bytes).unwrap()
}

fn felt_from_tail(tail: &[u8]) -> Felt {
    let mut bytes = [0u8; 32];
    bytes[32 - tail.len()..].copy_from_slice(tail);
    Felt::from_bytes_be(bytes).unwrap()
}

const PRIME_HEX: &str = "0x800000000000011000000000000000000000000000000000000000000000001";

#[test]
fn from_bytes_accepts_values_below_the_prime() {
    let mut below = [0u8; 32];
    below[0] = 0x08;
    below[7] = 0x11;
    let mut at = below;
    at[31] = 0x01;
    assert!(Felt::from_bytes_be(below).is_some());
    assert!(Felt::from_bytes_be(at).is_none());
    assert!(Felt::from_bytes_be([0xff; 32]).is_none());
    assert_eq!(Felt::from_bytes_be(below).unwrap().to_bytes_be(), below);
}

#[test]
fn from_hex_be_reads_numbers() {
    assert_eq!(Felt::from_hex_be("0x1a").unwrap(), felt(26));
    assert_eq!(Felt::from_hex_be("1A").unwrap(), felt(26));
    assert_eq!(Felt::from_hex_be("0x0x1a").unwrap(), felt(26));
    assert_eq!(Felt::from_hex_be("").unwrap(), felt(0));
    assert_eq!(Felt::from_hex_be("0x").unwrap(), felt(0));
}

#[test]
fn from_hex_be_refuses_bad_text() {
    assert!(Felt::from_hex_be("0xg1").is_none());
    assert!(Felt::from_hex_be("0x 1").is_none());
    assert!(Felt::from_hex_be(PRIME_HEX).is_none());
    let sixty_five = format!("0x{}", "0".repeat(65));
    assert!(Felt::from_hex_be(&sixty_five).is_none());
    let sixty_four = format!("0x{}", "0".repeat(64));
    assert_eq!(Felt::from_hex_be(&sixty_four).unwrap(), felt(0));
}

#[test]
fn from_hex_be_accepts_the_largest_element() {
    let largest = "0x800000000000011000000000000000000000000000000000000000000000000";
    let f = Felt::from_hex_be(largest).unwrap();
    assert_eq!(f.to_hex_string(), largest);
}

#[test]
fn to_hex_string_drops_leading_zeros() {
    assert_eq!(felt(0).to_hex_string(), "0x0");
    assert_eq!(felt(1).to_hex_string(), "0x1");
    assert_eq!(felt(0x10a).to_hex_string(), "0x10a");
    assert_eq!(felt(0xabcdef).to_hex_string(), "0xabcdef");
}

#[test]
fn hex_round_trip_law() {
    for v in [0u64, 1, 15, 16, 255, 4096, 0xdead_beef, u64::MAX] {
        let f = felt(v);
        assert_eq!(Felt::from_hex_be(&f.to_hex_string()).unwrap(), f);
    }
    let jediswap = "0x41fd22b238fa21cfcf5dd45a8548974d8263b3a531a60388411c5e230f97023";
    let f = Felt::from_hex_be(jediswap).unwrap();
    assert_eq!(f.to_hex_string(), jediswap);
}

#[test]
fn hex_strings_tell_elements_apart_law() {
    let values = [0u64, 1, 16, 256, 0x100, 0x1000, 0x10000];
    for a in values {
        for b in values {
            assert_eq!(felt(a).to_hex_string() == felt(b).to_hex_string(), a == b);
        }
    }
}

#[test]
fn equality_compares_bytes() {
    assert!(felt(7) == felt(7));
    assert!(felt(7) != felt(8));
    assert!(felt_from_tail(&[1, 0]) != felt(1));
}

#[test]
fn short_string_reads_ascii() {
    assert_eq!(felt_from_tail(b"ETH").parse_cairo_short_string().unwrap(), "ETH");
    assert_eq!(felt_from_tail(b"Ether").parse_cairo_short_string().unwrap(), "Ether");
    assert_eq!(felt(0).parse_cairo_short_string().unwrap(), "");
}

#[test]
fn short_string_maps_high_bytes_to_latin1() {
    assert_eq!(felt_from_tail(&[0xe9]).parse_cairo_short_string().unwrap(), "\u{e9}");
}

#[test]
fn short_string_refuses_a_null_terminator() {
    assert_eq!(
        felt_from_tail(&[b'A', 0, b'B']).parse_cairo_short_string(),
        Err(ShortStringError::UnexpectedNullTerminator)
    );
    assert_eq!(
        felt_from_tail(&[b'A', 0]).parse_cairo_short_string(),
        Err(ShortStringError::UnexpectedNullTerminator)
    );
}

#[test]
fn short_string_refuses_a_full_first_byte() {
    let mut bytes = [b'a'; 32];
    bytes[0] = 0x01;
    let f = Felt::from_bytes_be(bytes).unwrap();
    assert_eq!(f.parse_cairo_short_string(), Err(ShortStringError::ValueOutOfRange));
}

//! UPC conversion and decimal-string behavior.

use itretail_automation::digits::{parse_u16, u32_to_dec};
use itretail_automation::upc::itr_upc_to_upca;

#[test]
fn test_itr_to_upca() {
    let itr = "0081001211009".to_owned();
    let expected = "810012110099".to_owned();
    assert_eq!(Some(expected), itr_upc_to_upca(&itr));
}

#[test]
fn test_itr_to_upca_bad() {
    assert_eq!(None, itr_upc_to_upca(&"0800004210001".to_owned()));
}

#[test]
fn test_itr_weighed_good() {
    let itr = "0020163400000".to_owned();
    let expected = "01634".to_owned();
    assert_eq!(Some(expected), itr_upc_to_upca(&itr));
}

#[test]
fn test_itr_weighed_bad() {
    assert_eq!(None, itr_upc_to_upca(&"0020163404000".to_owned()));
}

#[test]
fn upca_rejects_short_and_non_digit_input() {
    assert_eq!(None, itr_upc_to_upca(&"00".to_owned()));
    assert_eq!(None, itr_upc_to_upca(&"".to_owned()));
    assert_eq!(None, itr_upc_to_upca(&"00810012110a9".to_owned()));
}

#[test]
fn parse_u16_accepts_digit_strings_up_to_the_limit() {
    assert_eq!(Some(0), parse_u16("0"));
    assert_eq!(Some(950), parse_u16("950"));
    assert_eq!(Some(950), parse_u16("00950"));
    assert_eq!(Some(65535), parse_u16("65535"));
}

#[test]
fn parse_u16_rejects_empty_sign_and_overflow() {
    assert_eq!(None, parse_u16(""));
    assert_eq!(None, parse_u16("+950"));
    assert_eq!(None, parse_u16("95a"));
    assert_eq!(None, parse_u16("65536"));
    assert_eq!(None, parse_u16("999999999999"));
}

#[test]
fn decimal_rendering_round_trips() {
    assert_eq!("0", u32_to_dec(0).as_str());
    assert_eq!("1001", u32_to_dec(1001).as_str());
    assert_eq!("65535", u32_to_dec(65535).as_str());
    assert_eq!(Some(1001), parse_u16(u32_to_dec(1001).as_str()));
}

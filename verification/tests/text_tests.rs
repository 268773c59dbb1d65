use zenoh_unicast::text::{bool_str, hex_bytes_of_bytes, hex_of_bytes, u64_to_dec, whatami_str};
use zenoh_unicast::types::WhatAmI;

#[test]
fn decimal_rendering() {
    assert_eq!(u64_to_dec(0), "0");
    assert_eq!(u64_to_dec(7), "7");
    assert_eq!(u64_to_dec(10), "10");
    assert_eq!(u64_to_dec(65536), "65536");
    assert_eq!(u64_to_dec(u64::MAX), "18446744073709551615");
}

#[test]
fn hexadecimal_rendering() {
    assert_eq!(hex_of_bytes(&vec![]), "");
    assert_eq!(hex_of_bytes(&vec![0x0f, 0xa0]), "0fa0");
    assert_eq!(hex_of_bytes(&vec![0x00, 0xff]), "00ff");
    assert_eq!(hex_bytes_of_bytes(&vec![0x0f, 0xa0]), b"0fa0".to_vec());
}

#[test]
fn role_and_flag_names() {
    assert_eq!(whatami_str(WhatAmI::Router), "router");
    assert_eq!(whatami_str(WhatAmI::Peer), "peer");
    assert_eq!(whatami_str(WhatAmI::Client), "client");
    assert_eq!(bool_str(true), "true");
    assert_eq!(bool_str(false), "false");
}

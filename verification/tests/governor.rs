use mensa_upb::governor::{ClientAddress, UserToken};

#[test]
fn ipv6_addresses_are_cut_to_their_prefix() {
    let octets: [u8; 16] = [
        0x20, 0x01, 0x0d, 0xb8, 0xaa, 0xbb, 0xcc, 0xdd, 1, 2, 3, 4, 5, 6, 7, 8,
    ];
    assert_eq!(
        UserToken::mask_prefix(octets),
        [0x20, 0x01, 0x0d, 0xb8, 0xaa, 0xbb, 0xcc, 0, 0, 0, 0, 0, 0, 0, 0, 0]
    );
    assert_eq!(UserToken::mask_prefix([0xff; 16])[..7], [0xff; 7]);
    assert_eq!(UserToken::mask_prefix([0xff; 16])[7..], [0; 9]);
}

#[test]
fn the_forwarded_address_comes_before_the_peer() {
    let token = UserToken;
    let v4 = ClientAddress::V4([192, 168, 0, 1]);
    let v6 = ClientAddress::V6([0xff; 16]);
    let mut masked = [0u8; 16];
    masked[..7].copy_from_slice(&[0xff; 7]);
    assert_eq!(token.extract(Some(v4), Some(v6)), Ok(v4));
    assert_eq!(token.extract(None, Some(v6)), Ok(ClientAddress::V6(masked)));
    assert_eq!(token.extract(Some(v6), None), Ok(ClientAddress::V6(masked)));
    assert_eq!(
        token.extract(None, None),
        Err("{ \"code\": 500, \"msg\": \"Could not extract peer IP address from request\"}")
    );
    assert_eq!(token.name(), "Bearer token");
}

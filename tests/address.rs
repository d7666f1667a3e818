use hello_web3::address::Address;
use hello_web3::error::Web3Error;

#[test]
fn canonical_text_is_checksummed() {
    let a = Address::parse("0x5aaeb6053f3e94c9b9a09f33669435e7ef1beaed").unwrap();
    assert_eq!(a.to_canonical_string(), "0x5aAeb6053F3E94C9b9A09f33669435E7Ef1BeAed");
}

#[test]
fn canonical_text_parses_back() {
    let a = Address::from_bytes([
        0x07, 0xEC, 0x3c, 0xC1, 0x0e, 0x29, 0x17, 0xc3, 0xC2, 0x5b, 0xCD, 0x74, 0x73, 0x48, 0x5f,
        0x99, 0xC6, 0x20, 0x52, 0x00,
    ]);
    let s = a.to_canonical_string();
    assert_eq!(s, "0x07EC3cC10e2917c3C25bCD7473485f99C6205200");
    assert_eq!(Address::parse(&s), Ok(a));
    let zero = Address::from_bytes([0; 20]);
    assert_eq!(Address::parse(&zero.to_canonical_string()), Ok(zero));
}

#[test]
fn parse_accepts_either_case_and_no_prefix() {
    let a = Address::parse("0x07EC3cC10e2917c3C25bCD7473485f99C6205200").unwrap();
    let b = Address::parse("07ec3cc10e2917c3c25bcd7473485f99c6205200").unwrap();
    assert_eq!(a, b);
    assert_eq!(a.bytes[0], 0x07);
    assert_eq!(a.bytes[19], 0x00);
}

#[test]
fn parse_rejects_malformed_text() {
    for s in [
        "",
        "0x",
        "0x07EC3cC10e2917c3C25bCD7473485f99C620520",
        "0x07EC3cC10e2917c3C25bCD7473485f99C620520000",
        "0x07EC3cC10e2917c3C25bCD7473485f99C62052zz",
        "0X07EC3cC10e2917c3C25bCD7473485f99C6205200",
    ] {
        assert_eq!(Address::parse(s), Err(Web3Error::InvalidAddress), "{}", s);
    }
}

#[test]
fn parse_rejects_blanks() {
    for s in [
        "0x07EC3cC10e2917c3C25bCD7473485f99C6205200 ",
        " 0x07EC3cC10e2917c3C25bCD7473485f99C6205200",
        "0x07EC3cC10e2917c3 C25bCD7473485f99C6205200",
        "0x07EC3cC10e2917c3C25bCD7473485f99C6205200\n",
        "0x07EC3cC10e2917c3C25bCD7473485f99C620\t5200",
    ] {
        assert_eq!(Address::parse(s), Err(Web3Error::InvalidAddress), "{:?}", s);
    }
}

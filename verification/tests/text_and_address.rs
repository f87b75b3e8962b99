use local_deploy::address::{normalize_address, normalize_management_address, AddressError};
use local_deploy::text::{char_is_whitespace, decimal_string, starts_with, trim_then_strip};

#[test]
fn whitespace_matches_std_for_every_char() {
    for u in 0u32..=0x10FFFF {
        if let Some(c) = char::from_u32(u) {
            assert_eq!(char_is_whitespace(c), c.is_whitespace(), "U+{u:04X}");
        }
    }
}

#[test]
fn trim_then_strip_matches_std() {
    let samples = [
        "",
        "   ",
        " http://a/ ",
        "\u{3000}x//\u{85}",
        "a/ /",
        "///",
        "\t\nhttps://deploy.example.com/\r\n",
        "héllo/",
    ];
    for s in samples {
        let expected = s.trim().trim_end_matches('/');
        assert_eq!(trim_then_strip(s, '/'), expected, "{s:?}");
    }
}

#[test]
fn decimal_string_renders_numbers() {
    for n in [0u64, 7, 10, 99, 200, 404, 65535, 1234567890, u64::MAX] {
        assert_eq!(decimal_string(n), n.to_string());
    }
}

#[test]
fn starts_with_checks_prefixes() {
    assert!(starts_with("http://x", "http://"));
    assert!(starts_with("abc", ""));
    assert!(!starts_with("http:/", "http://"));
    assert!(!starts_with("https://x", "http://"));
}

#[test]
fn public_address_examples_are_equivalent() {
    for raw in ["https://deploy.example.com", "https://deploy.example.com/", "  https://deploy.example.com// \n"] {
        assert_eq!(normalize_address(raw.to_string()), Ok("https://deploy.example.com".to_string()));
    }
    assert_eq!(normalize_address("http://localhost:11000".to_string()), Ok("http://localhost:11000".to_string()));
}

#[test]
fn public_address_errors() {
    assert_eq!(normalize_address("".to_string()), Err(AddressError::EmptyPublicAddress));
    assert_eq!(normalize_address(" / /".to_string()), Err(AddressError::PublicAddressWithoutScheme));
    assert_eq!(normalize_address("  //  ".to_string()), Err(AddressError::EmptyPublicAddress));
    assert_eq!(normalize_address("localhost:11000".to_string()), Err(AddressError::PublicAddressWithoutScheme));
    assert_eq!(normalize_address("ftp://x".to_string()), Err(AddressError::PublicAddressWithoutScheme));
    assert_eq!(
        AddressError::EmptyPublicAddress.message(),
        "LOCAL_DEPLOY_PUBLIC_ADDRESS must not be empty"
    );
    assert_eq!(
        AddressError::PublicAddressWithoutScheme.message(),
        "LOCAL_DEPLOY_PUBLIC_ADDRESS must include http:// or https://"
    );
}

#[test]
fn management_address_is_normalized() {
    assert_eq!(
        normalize_management_address("http://localhost:11001/".to_string()),
        Ok("http://localhost:11001".to_string())
    );
    assert_eq!(normalize_management_address("localhost:11001".to_string()), Ok("localhost:11001".to_string()));
    assert_eq!(normalize_management_address(" \t/".to_string()), Err(AddressError::EmptyManagementAddress));
    assert_eq!(
        AddressError::EmptyManagementAddress.message(),
        "LOCAL_DEPLOY_MANAGEMENT_ADDRESS must not be empty"
    );
}

#[test]
fn trailing_slash_is_optional() {
    let a = normalize_management_address("http://h:1".to_string()).unwrap();
    let b = normalize_management_address("http://h:1/".to_string()).unwrap();
    assert_eq!(a, b);
    // With whitespace before the slash, the slash is not trailing once trimmed.
    assert_eq!(normalize_management_address("a /".to_string()), Ok("a ".to_string()));
}

#[test]
fn normalizing_twice_changes_nothing() {
    let once = normalize_management_address(" http://h:1/// ".to_string()).unwrap();
    let twice = normalize_management_address(once.clone()).unwrap();
    assert_eq!(once, twice);
    // An address whose normal form ends with whitespace normalises further.
    let once = normalize_management_address("a/ /".to_string()).unwrap();
    assert_eq!(once, "a/ ");
    assert_eq!(normalize_management_address(once).unwrap(), "a");
}

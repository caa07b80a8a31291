use glacier2obj::resource_id::{IdError, ResourceId};

#[test]
fn parses_plain_and_prefixed_hex() {
    assert_eq!(
        ResourceId::from_hex_string("00123456789ABCDE"),
        Ok(ResourceId::new(0x0012_3456_789A_BCDE))
    );
    assert_eq!(
        ResourceId::from_hex_string("0x00123456789ABCDE"),
        Ok(ResourceId::new(0x0012_3456_789A_BCDE))
    );
    assert_eq!(
        ResourceId::from_hex_string("0X00123456789abcde"),
        Ok(ResourceId::new(0x0012_3456_789A_BCDE))
    );
}

#[test]
fn parses_short_signed_and_padded_numbers() {
    assert_eq!(ResourceId::from_hex_string("1f"), Ok(ResourceId::new(0x1F)));
    assert_eq!(ResourceId::from_hex_string("+1F"), Ok(ResourceId::new(0x1F)));
    assert_eq!(ResourceId::from_hex_string("0x+1F"), Ok(ResourceId::new(0x1F)));
    assert_eq!(
        ResourceId::from_hex_string("00000000000000000001"),
        Ok(ResourceId::new(1))
    );
    assert_eq!(ResourceId::from_hex_string("0"), Ok(ResourceId::new(0)));
}

#[test]
fn rejects_text_that_is_not_hex() {
    assert_eq!(ResourceId::from_hex_string(""), Err(IdError::NotHex));
    assert_eq!(ResourceId::from_hex_string("0x"), Err(IdError::NotHex));
    assert_eq!(ResourceId::from_hex_string("+"), Err(IdError::NotHex));
    assert_eq!(ResourceId::from_hex_string("-1"), Err(IdError::NotHex));
    assert_eq!(ResourceId::from_hex_string("++1"), Err(IdError::NotHex));
    assert_eq!(ResourceId::from_hex_string("0x0x1"), Err(IdError::NotHex));
    assert_eq!(ResourceId::from_hex_string("+0x1"), Err(IdError::NotHex));
    assert_eq!(ResourceId::from_hex_string("12G4"), Err(IdError::NotHex));
    assert_eq!(ResourceId::from_hex_string(" 12"), Err(IdError::NotHex));
    assert_eq!(ResourceId::from_hex_string("12 "), Err(IdError::NotHex));
    assert_eq!(ResourceId::from_hex_string("1_2"), Err(IdError::NotHex));
    assert_eq!(
        ResourceId::from_hex_string("10000000000000000"),
        Err(IdError::NotHex)
    );
}

#[test]
fn rejects_numbers_no_resource_can_have() {
    assert_eq!(
        ResourceId::from_hex_string("00FFFFFFFFFFFFFF"),
        Err(IdError::InvalidId(0x00FF_FFFF_FFFF_FFFF))
    );
    assert_eq!(
        ResourceId::from_hex_string("99B63BBBE01EEED0"),
        Err(IdError::InvalidId(0x99B6_3BBB_E01E_EED0))
    );
    assert_eq!(
        ResourceId::from_hex_string("FFFFFFFFFFFFFFFF"),
        Err(IdError::InvalidId(u64::MAX))
    );
    assert_eq!(
        ResourceId::from_hex_string("04B63BBBE01EEED0"),
        Ok(ResourceId::new(0x04B6_3BBB_E01E_EED0))
    );
    assert_eq!(
        ResourceId::from_hex_string("05B63BBBE01EEED0"),
        Err(IdError::InvalidId(0x05B6_3BBB_E01E_EED0))
    );
}

#[test]
fn validity_matches_parsing() {
    assert!(ResourceId::new(0).is_valid());
    assert!(ResourceId::new(0x04B6_3BBB_E01E_EED0).is_valid());
    assert!(!ResourceId::new(0x05B6_3BBB_E01E_EED0).is_valid());
    assert!(!ResourceId::new(0x00FF_FFFF_FFFF_FFFF).is_valid());
    assert!(!ResourceId::new(0x02FF_FFFF_FFFF_FFFF).is_valid());
    assert!(ResourceId::new(0x00FF_FFFF_FFFF_FFFE).is_valid());
}

#[test]
fn formats_sixteen_upper_case_digits() {
    assert_eq!(ResourceId::new(0).to_hex_string(), "0000000000000000");
    assert_eq!(ResourceId::new(0x1F).to_hex_string(), "000000000000001F");
    assert_eq!(
        ResourceId::new(0x0012_3456_789A_BCDE).to_hex_string(),
        "00123456789ABCDE"
    );
    assert_eq!(ResourceId::new(u64::MAX).to_hex_string(), "FFFFFFFFFFFFFFFF");
    assert_eq!(
        ResourceId::new(0x00FF_FFFF_FFFF_FFFF).to_hex_string(),
        "00FFFFFFFFFFFFFF"
    );
}

#[test]
fn text_form_parses_back() {
    let id = ResourceId::new(0x00B6_3BBB_E01E_EED0);
    assert_eq!(ResourceId::from_hex_string(&id.to_hex_string()), Ok(id));
}

use fhcli::locale::{parse_app_language, replace_umlauts, replace_unicode, AppLanguage};

/// Test correct replacement of german special characters, locale given as flag
#[test]
fn locale_test_replace_unicode() {
    assert_eq!(replace_unicode("schön", parse_app_language("de")), "schoen");
    assert_eq!(replace_unicode("geschoß", parse_app_language("de")), "geschoss");
    assert_eq!(replace_unicode("zäh", parse_app_language("de")), "zaeh");
    assert_eq!(replace_unicode("lüge", parse_app_language("de")), "luege");

    assert_eq!(replace_unicode("schön", parse_app_language("en")), "schon");
    assert_eq!(replace_unicode("geschoß", parse_app_language("en")), "geschoss");
    assert_eq!(replace_unicode("zäh", parse_app_language("en")), "zah");
    assert_eq!(replace_unicode("lüge", parse_app_language("en")), "luge");
}

/// Test correct replacement of german special characters
#[test]
fn util_test_replace_unicode() {
    assert_eq!(replace_unicode("schön", AppLanguage::DE), "schoen");
    assert_eq!(replace_unicode("geschoß", AppLanguage::DE), "geschoss");
    assert_eq!(replace_unicode("zäh", AppLanguage::DE), "zaeh");
    assert_eq!(replace_unicode("lüge", AppLanguage::DE), "luege");

    assert_eq!(replace_unicode("schön", AppLanguage::EN), "schon");
    assert_eq!(replace_unicode("geschoß", AppLanguage::EN), "geschoss");
    assert_eq!(replace_unicode("zäh", AppLanguage::EN), "zah");
    assert_eq!(replace_unicode("lüge", AppLanguage::EN), "luge");
}

#[test]
fn test_replace_umlauts() {
    assert_eq!(replace_umlauts("schön"), "schoen");
    assert_eq!(replace_umlauts("zäh"), "zaeh");
    assert_eq!(replace_umlauts("lüge"), "luege");

    assert_ne!(replace_umlauts("schön"), "schon");
    assert_ne!(replace_umlauts("zäh"), "zah");
    assert_ne!(replace_umlauts("lüge"), "luge");
}

/// Test app language flag conversion
#[test]
fn test_parse_app_language() {
    assert_eq!(parse_app_language("de"), AppLanguage::DE);
    assert_eq!(parse_app_language("en"), AppLanguage::EN);
    assert_eq!(parse_app_language(""), AppLanguage::EN);
}

/// ASCII words pass through the normalizer unchanged, for either locale.
#[test]
fn test_replace_unicode_ascii_identity() {
    assert_eq!(replace_unicode("apple", AppLanguage::EN), "apple");
    assert_eq!(replace_unicode("apple", AppLanguage::DE), "apple");
    assert_eq!(replace_unicode("", AppLanguage::DE), "");
    assert_eq!(replace_unicode("", AppLanguage::EN), "");
}

use mir_analyzer::php_version::PhpVersion;

#[test]
fn parses_major_minor() {
    assert_eq!("8.2".parse::<PhpVersion>().unwrap(), PhpVersion::new(8, 2));
}

#[test]
fn parses_major_minor_patch() {
    assert_eq!(
        "8.3.7".parse::<PhpVersion>().unwrap(),
        PhpVersion::new(8, 3)
    );
}

#[test]
fn parses_major_only() {
    assert_eq!("7".parse::<PhpVersion>().unwrap(), PhpVersion::new(7, 0));
}

#[test]
fn rejects_garbage() {
    assert!("x.y".parse::<PhpVersion>().is_err());
    assert!("8.x".parse::<PhpVersion>().is_err());
    assert!("".parse::<PhpVersion>().is_err());
}

#[test]
fn ordered_by_major_then_minor() {
    assert!(PhpVersion::new(8, 1) < PhpVersion::new(8, 2));
    assert!(PhpVersion::new(7, 4) < PhpVersion::new(8, 0));
}

#[test]
fn displays_as_major_dot_minor() {
    assert_eq!(PhpVersion::new(8, 3).to_string(), "8.3");
}

#[test]
fn includes_symbol_respects_since() {
    assert!(!PhpVersion::new(7, 4).includes_symbol(Some("8.0"), None));
    assert!(PhpVersion::new(8, 0).includes_symbol(Some("8.0"), None));
    assert!(PhpVersion::new(8, 5).includes_symbol(Some("8.0"), None));
}

#[test]
fn includes_symbol_respects_removed() {
    assert!(PhpVersion::new(7, 4).includes_symbol(None, Some("8.0")));
    assert!(!PhpVersion::new(8, 0).includes_symbol(None, Some("8.0")));
    assert!(!PhpVersion::new(8, 5).includes_symbol(None, Some("8.0")));
}

#[test]
fn includes_symbol_ignores_library_versions() {
    // newrelic uses `@since 9.12` for its own version; must not exclude on
    // PHP 8.5.
    assert!(PhpVersion::new(8, 5).includes_symbol(Some("9.12"), None));
    // mongodb uses `@since 1.17` for its driver version; harmless on its
    // own, but exercise the cap explicitly.
    assert!(PhpVersion::new(8, 5).includes_symbol(Some("1.17"), None));
    assert!(PhpVersion::new(8, 5).includes_symbol(Some("12.0"), None));
}

#[test]
fn includes_symbol_ignores_garbage() {
    assert!(PhpVersion::new(8, 5).includes_symbol(Some("PECL"), None));
    assert!(PhpVersion::new(8, 5).includes_symbol(Some(""), None));
}

#[test]
fn in_range_inclusive_both_bounds() {
    let v = PhpVersion::new;
    // [7.0, 8.0] inclusive on both ends.
    assert!(v(7, 0).in_range(Some("7.0"), Some("8.0")));
    assert!(v(8, 0).in_range(Some("7.0"), Some("8.0"))); // upper bound is inclusive
    assert!(v(7, 4).in_range(Some("7.0"), Some("8.0")));
    assert!(!v(8, 1).in_range(Some("7.0"), Some("8.0")));
    assert!(!v(6, 4).in_range(Some("7.0"), Some("8.0")));
}

#[test]
fn in_range_open_bounds() {
    let v = PhpVersion::new;
    // from-only: available at and after 8.0.
    assert!(!v(7, 4).in_range(Some("8.0"), None));
    assert!(v(8, 0).in_range(Some("8.0"), None));
    assert!(v(8, 5).in_range(Some("8.0"), None));
    // to-only: available at and before 8.0.
    assert!(v(7, 4).in_range(None, Some("8.0")));
    assert!(v(8, 0).in_range(None, Some("8.0")));
    assert!(!v(8, 1).in_range(None, Some("8.0")));
    // no bounds: always available.
    assert!(v(7, 4).in_range(None, None));
}

#[test]
fn in_range_across_the_7_4_to_8_0_jump() {
    let v = PhpVersion::new;
    // The 7.4 → 8.0 boundary: the gap-free partition for Error::__clone.
    assert!(v(7, 4).in_range(Some("7.0"), Some("8.0")));
    assert!(!v(7, 4).in_range(Some("8.1"), None));
    assert!(!v(8, 1).in_range(Some("7.0"), Some("8.0")));
    assert!(v(8, 1).in_range(Some("8.1"), None));
}

#[test]
fn in_range_ignores_unparseable_bounds() {
    let v = PhpVersion::new(8, 2);
    assert!(v.in_range(Some("garbage"), None));
    assert!(v.in_range(None, Some("")));
    // patch components are truncated by FromStr.
    assert!(v.in_range(Some("8.0.1"), Some("8.3.9")));
}

#[test]
fn display_then_parse_gives_the_same_version() {
    for (major, minor) in [(0u8, 0u8), (7, 4), (8, 5), (255, 255), (10, 12)] {
        let v = PhpVersion::new(major, minor);
        assert_eq!(v.to_string().parse::<PhpVersion>().unwrap(), v);
    }
}

#[test]
fn cache_byte_packs_major_and_minor_nibbles() {
    assert_eq!(PhpVersion::new(8, 3).cache_byte(), 0x83);
    assert_eq!(PhpVersion::new(7, 4).cache_byte(), 0x74);
    // a major above 15 loses its high bits, a minor above 15 its high nibble
    assert_eq!(PhpVersion::new(17, 18).cache_byte(), 0x12);
}

#[test]
fn parse_accepts_plus_sign_whitespace_and_trailing_parts() {
    assert_eq!(" +8.+1 ".parse::<PhpVersion>().unwrap(), PhpVersion::new(8, 1));
    assert_eq!("8.3.x".parse::<PhpVersion>().unwrap(), PhpVersion::new(8, 3));
    assert_eq!("008.02".parse::<PhpVersion>().unwrap(), PhpVersion::new(8, 2));
}

#[test]
fn parse_rejects_out_of_range_and_signs() {
    let err = "256.0".parse::<PhpVersion>().unwrap_err();
    assert_eq!(err.0, "256.0");
    assert!("-1.0".parse::<PhpVersion>().is_err());
    assert!("8.".parse::<PhpVersion>().is_err());
    assert!("+".parse::<PhpVersion>().is_err());
    assert!(" 8.1.2\n".parse::<PhpVersion>().is_ok());
}

#[test]
fn default_and_latest_are_8_5() {
    assert_eq!(PhpVersion::default(), PhpVersion::new(8, 5));
    assert_eq!(PhpVersion::latest().major(), 8);
    assert_eq!(PhpVersion::latest().minor(), 5);
}

#[test]
fn precedes_orders_by_major_then_minor() {
    assert!(PhpVersion::new(7, 9).precedes(PhpVersion::new(8, 0)));
    assert!(!PhpVersion::new(8, 0).precedes(PhpVersion::new(8, 0)));
    assert!(!PhpVersion::new(8, 1).precedes(PhpVersion::new(7, 9)));
}

#[test]
fn includes_symbol_with_both_markers() {
    let v = PhpVersion::new(7, 4);
    assert!(v.includes_symbol(Some("7.0"), Some("8.0")));
    assert!(!v.includes_symbol(Some("7.0"), Some("7.4")));
    assert!(!v.includes_symbol(Some("8.0"), Some("9.0")));
    // a removed marker outside the PHP range is ignored
    assert!(PhpVersion::new(8, 5).includes_symbol(None, Some("3.0")));
}

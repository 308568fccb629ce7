use large_scale_redirects::encoding::parse_target;

#[test]
fn status_suffix_is_split_off() {
    let (t, s) = parse_target(b"https://x.example/page 302");
    assert_eq!(t, b"https://x.example/page".to_vec());
    assert_eq!(s, Some(302));
}

#[test]
fn out_of_range_suffix_is_kept() {
    let (t, s) = parse_target(b"https://x.example/page 999");
    assert_eq!(t, b"https://x.example/page 999".to_vec());
    assert_eq!(s, None);
    let (t, s) = parse_target(b"https://x.example/page 300");
    assert_eq!(t, b"https://x.example/page 300".to_vec());
    assert_eq!(s, None);
    let (t, s) = parse_target(b"https://x.example/page 123");
    assert_eq!(t, b"https://x.example/page 123".to_vec());
    assert_eq!(s, None);
}

#[test]
fn range_ends_are_accepted() {
    assert_eq!(parse_target(b"/p 301"), (b"/p".to_vec(), Some(301)));
    assert_eq!(parse_target(b"/p 399"), (b"/p".to_vec(), Some(399)));
    assert_eq!(parse_target(b"/p 400"), (b"/p 400".to_vec(), None));
}

#[test]
fn malformed_tails_are_kept() {
    assert_eq!(parse_target(b"/p_302"), (b"/p_302".to_vec(), None));
    assert_eq!(parse_target(b"/p 3a2"), (b"/p 3a2".to_vec(), None));
    assert_eq!(parse_target(b"/p  30"), (b"/p  30".to_vec(), None));
    assert_eq!(parse_target(b"302"), (b"302".to_vec(), None));
    assert_eq!(parse_target(b""), (Vec::new(), None));
}

#[test]
fn bare_suffix_leaves_empty_target() {
    assert_eq!(parse_target(b" 307"), (Vec::new(), Some(307)));
}

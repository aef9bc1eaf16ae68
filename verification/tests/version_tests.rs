use toolchain_image::Version;

fn bytes(s: &str) -> Vec<u8> {
    s.as_bytes().to_vec()
}

#[test]
fn renders_simple_triple() {
    assert_eq!(Version::new(18, 0, 0).to_bytes(), bytes("18.0.0"));
}

#[test]
fn renders_multi_digit_fields() {
    assert_eq!(Version::new(1, 22, 0).to_bytes(), bytes("1.22.0"));
    assert_eq!(Version::new(10, 203, 4567).to_bytes(), bytes("10.203.4567"));
}

#[test]
fn renders_zero() {
    assert_eq!(Version::new(0, 0, 0).to_bytes(), bytes("0.0.0"));
}

#[test]
fn renders_largest_fields() {
    assert_eq!(
        Version::new(u64::MAX, 0, 1).to_bytes(),
        bytes("18446744073709551615.0.1")
    );
}

#[test]
fn rendering_matches_semver_display() {
    let cases = [(18, 0, 0), (1, 22, 19), (0, 1, 0), (999, 1000, 1001)];
    for (major, minor, patch) in cases {
        let ours = Version::new(major, minor, patch).to_bytes();
        let theirs = semver::Version::new(major, minor, patch).to_string();
        assert_eq!(ours, theirs.into_bytes());
    }
}

#[test]
fn equality_is_by_fields() {
    assert_eq!(Version::new(1, 2, 3), Version::new(1, 2, 3));
    assert_ne!(Version::new(1, 2, 3), Version::new(1, 2, 4));
}

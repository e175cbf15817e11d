use gittag::{parse_u64, push_decimal, DwVersion};

fn chars(s: &str) -> Vec<char> {
    s.chars().collect()
}

#[test]
pub fn test_version() {
    let version = DwVersion::parse("v1.0.5_20231126_Release").unwrap();
    println!("major:{}", version.major);
    println!("minor:{}", version.minor);
    println!("patch:{}", version.patch);
    println!("pre:{:?}", version.pre);
    println!("BuildMetadata:{:?}", version.build);
    assert!(version.has_prefix);
    assert_eq!(version.major, 1);
    assert_eq!(version.minor, 0);
    assert_eq!(version.patch, 5);
    assert_eq!(version.build, Some(20231126));
    assert_eq!(version.pre, Some("Release".to_string()));
}

#[test]
pub fn test_version1() {
    let mut version = DwVersion::parse("v1.0.0").unwrap();
    println!("major:{}", version.major);
    println!("minor:{}", version.minor);
    println!("patch:{}", version.patch);
    println!("pre:{:?}", version.pre);
    println!("BuildMetadata:{:?}", version.build);
    assert_eq!((version.major, version.minor, version.patch), (1, 0, 0));
    assert_eq!(version.pre, None);
    assert_eq!(version.build, None);
    version = version.plus_patch();
    assert_eq!((version.major, version.minor, version.patch), (1, 0, 1));
    assert!(version.has_prefix);
    version.set_pre("beta".to_string());
    version.set_build(20231126);
    println!("version:{}", version.to_string());
    assert_eq!(version.to_string(), "v1.0.1_20231126_beta");
}

#[test]
pub fn is_valid_version() {
    let version = DwVersion::is_valid_version("v1.0.0g");
    assert!(version, "v1.0.0 is valid version");
}

#[test]
pub fn is_valid_version1() {
    let version = DwVersion::is_valid_version("v1.0.0_20150327_release");
    assert!(version, "v1.0.0_20150327_release is valid version");
}

#[test]
fn invalid_shapes_are_refused() {
    assert!(!DwVersion::is_valid_version("1.a.0"));
    assert!(!DwVersion::is_valid_version("v1.0"));
    assert!(!DwVersion::is_valid_version(""));
    assert!(!DwVersion::is_valid_version("v1.0.0-rc"));
    assert!(DwVersion::is_valid_version("1.2.3"));
}

#[test]
fn non_numeric_core_reads_as_zero() {
    let v = DwVersion::parse("x.y.z").unwrap();
    assert_eq!((v.major, v.minor, v.patch), (0, 0, 0));
    assert!(!v.has_prefix);
    assert_eq!(v.pre, None);
    assert_eq!(v.build, None);
}

#[test]
fn malformed_build_fails() {
    assert!(DwVersion::parse("v1.0.0_notanumber").is_none());
    assert!(DwVersion::parse("v1.0.0__beta").is_none());
    assert!(DwVersion::parse("v1.0.0_18446744073709551616_x").is_none());
}

#[test]
fn missing_parts_default_to_zero() {
    let v = DwVersion::parse("v2").unwrap();
    assert_eq!((v.major, v.minor, v.patch), (2, 0, 0));
    assert!(v.has_prefix);
    let v = DwVersion::parse("3.4").unwrap();
    assert_eq!((v.major, v.minor, v.patch), (3, 4, 0));
    assert!(!v.has_prefix);
    let v = DwVersion::parse("").unwrap();
    assert_eq!((v.major, v.minor, v.patch), (0, 0, 0));
}

#[test]
fn every_v_is_dropped_from_major() {
    let v = DwVersion::parse("v7v.1.2").unwrap();
    assert!(v.has_prefix);
    assert_eq!(v.major, 7);
    let v = DwVersion::parse("+8.1.2").unwrap();
    assert_eq!(v.major, 8);
}

#[test]
fn build_without_label() {
    let v = DwVersion::parse("v1.2.3_20240101").unwrap();
    assert_eq!(v.build, Some(20240101));
    assert_eq!(v.pre, None);
    assert_eq!(v.to_string(), "v1.2.3_20240101");
}

#[test]
fn extra_segments_are_ignored() {
    let v = DwVersion::parse("1.2.3_4_rc_extra").unwrap();
    assert_eq!(v.build, Some(4));
    assert_eq!(v.pre, Some("rc".to_string()));
    assert_eq!(v.to_string(), "1.2.3_4_rc");
}

#[test]
fn round_trip_keeps_every_field() {
    for text in ["v1.0.5_20231126_Release", "0.0.0", "v18446744073709551615.2.3_7", "vx.01.002_0003_"] {
        let v = DwVersion::parse(text).unwrap();
        let w = DwVersion::parse(&v.to_string()).unwrap();
        assert_eq!(v.has_prefix, w.has_prefix);
        assert_eq!((v.major, v.minor, v.patch), (w.major, w.minor, w.patch));
        assert_eq!(v.pre, w.pre);
        assert_eq!(v.build, w.build);
    }
}

#[test]
fn leading_zeros_are_not_written_back() {
    let v = DwVersion::parse("v01.002.0003_0042_dev").unwrap();
    assert_eq!(v.to_string(), "v1.2.3_42_dev");
}

#[test]
fn order_ignores_label_and_build() {
    let a = DwVersion::parse("v1.2.3_20200101_alpha").unwrap();
    let b = DwVersion::parse("1.2.3_20240101_Release").unwrap();
    assert!(a == b);
    assert_eq!(a.cmp(&b), std::cmp::Ordering::Equal);
    assert!(!(a < b));
    assert!(!(a > b));
    let c = DwVersion::parse("1.2.3").unwrap();
    assert!(a == c);
}

#[test]
fn order_is_by_major_minor_patch() {
    let a = DwVersion::parse("1.9.9").unwrap();
    let b = DwVersion::parse("2.0.0").unwrap();
    let c = DwVersion::parse("2.0.1").unwrap();
    let d = DwVersion::parse("2.1.0").unwrap();
    assert_eq!(a.cmp(&b), std::cmp::Ordering::Less);
    assert_eq!(c.cmp(&b), std::cmp::Ordering::Greater);
    assert_eq!(d.cmp(&c), std::cmp::Ordering::Greater);
    assert!(a < b && b < c && c < d);
    assert_eq!(b.partial_cmp(&d), Some(std::cmp::Ordering::Less));
}

#[test]
fn bumps_come_after() {
    let mut v = DwVersion::parse("v1.2.3_20231126_beta").unwrap();
    let p = v.plus_patch();
    let m = v.plus_minor();
    let j = v.plus_major();
    assert!(p > v && m > v && j > v);
    assert_eq!(p.to_string(), "v1.2.4_20231126_beta");
    assert_eq!(m.to_string(), "v1.3.3_20231126_beta");
    assert_eq!(j.to_string(), "v2.2.3_20231126_beta");
    assert_eq!(v.to_string(), "v1.2.3_20231126_beta");
}

#[test]
fn setters_overwrite() {
    let mut v = DwVersion::default();
    v.set_pre("a".to_string());
    v.set_pre("b".to_string());
    v.set_build(1);
    v.set_build(2);
    assert_eq!(v.to_string(), "v1.0.0_2_b");
}

#[test]
fn default_is_v1_0_0() {
    let v = DwVersion::default();
    assert_eq!(v.to_string(), "v1.0.0");
    assert!(v.has_prefix);
    assert_eq!(v.pre, None);
    assert_eq!(v.build, None);
}

#[test]
fn from_checks_the_shape() {
    assert!(DwVersion::from("1.a.0").is_none());
    assert!(DwVersion::from("v1.0.0_x_y").is_none());
    let v = DwVersion::from("v2.0.0_20240101_prod").unwrap();
    assert_eq!(v.to_string(), "v2.0.0_20240101_prod");
}

#[test]
fn build_number_from_date() {
    assert_eq!(DwVersion::build_from_date(2023, 11, 26), 20231126);
    assert_eq!(DwVersion::build_from_date(999, 1, 2), 9990102);
    assert_eq!(DwVersion::build_from_date(12345, 12, 31), 123451231);
}

#[test]
fn auto_build_is_a_date() {
    let mut v = DwVersion::parse("v1.0.0_5_x").unwrap();
    assert!(v.auto_set_build());
    let b = v.build.unwrap();
    assert!(b >= 19700101);
    assert!((1..=12).contains(&((b / 100) % 100)));
    assert!((1..=31).contains(&(b % 100)));
    assert_eq!(v.pre, Some("x".to_string()));
    assert_eq!((v.major, v.minor, v.patch), (1, 0, 0));
}

#[test]
fn reads_numbers_as_std_does() {
    for text in ["0", "+5", "42", "18446744073709551615", "", "+", "-1", "1a", "18446744073709551616", "007"] {
        let c = chars(text);
        assert_eq!(parse_u64(&c, 0, c.len()), text.parse::<u64>().ok(), "{}", text);
    }
    let c = chars("ab123cd");
    assert_eq!(parse_u64(&c, 2, 5), Some(123));
}

#[test]
fn writes_decimal() {
    for n in [0u64, 7, 10, 1203, u64::MAX] {
        let mut s = String::from("x");
        push_decimal(&mut s, n);
        assert_eq!(s, format!("x{}", n));
    }
}

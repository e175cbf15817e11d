use gittag::{first_unreadable_tag, latest_version, requested_version, tag_exists, TagError};

fn owned(tags: &[&str]) -> Vec<String> {
    tags.iter().map(|t| t.to_string()).collect()
}

#[test]
fn latest_of_three_tags() {
    let tags = owned(&["v1.2.0", "v1.2.1", "v1.1.9"]);
    assert_eq!(latest_version(&tags).unwrap().to_string(), "v1.2.1");
}

#[test]
fn latest_skips_tags_that_are_not_versions() {
    let tags = owned(&["release", "v9.a.0", "v0.3.0", "v0.2.9_x_y"]);
    assert_eq!(latest_version(&tags).unwrap().to_string(), "v0.3.0");
    assert!(latest_version(&owned(&["foo", "bar"])).is_none());
    assert!(latest_version(&Vec::new()).is_none());
}

#[test]
fn latest_of_equal_versions_is_the_last() {
    let tags = owned(&["v1.0.0_1_a", "v1.0.0_2_b", "v0.9.0"]);
    assert_eq!(latest_version(&tags).unwrap().to_string(), "v1.0.0_2_b");
}

#[test]
fn existing_tag_is_found() {
    let tags = owned(&["v1.0.0", "v1.0.1_20231126_Release"]);
    assert!(tag_exists(&tags, "v1.0.1_20231126_Release"));
    assert!(tag_exists(&tags, "v1.0.0"));
    assert!(!tag_exists(&tags, "v1.0.2"));
    assert!(!tag_exists(&tags, "1.0.0"));
}

#[test]
fn requested_version_checks_shape_then_existing_tags() {
    let tags = owned(&["v1.0.0", "v1.0.1_20231126_Release"]);
    assert_eq!(requested_version(&tags, "1.a.0").unwrap_err(), TagError::InvalidVersion);
    assert_eq!(requested_version(&tags, "v1.0.0_bad").unwrap_err(), TagError::InvalidVersion);
    assert_eq!(requested_version(&tags, "v1.0.0").unwrap_err(), TagError::AlreadyExists);
    let v = requested_version(&tags, "v1.1.0_20240101_prod").unwrap();
    assert_eq!((v.major, v.minor, v.patch), (1, 1, 0));
    assert_eq!(v.build, Some(20240101));
    assert_eq!(v.pre, Some("prod".to_string()));
}

#[test]
fn latest_of_equal_versions_keeps_the_later_prefix() {
    let tags = owned(&["v1.0.0", "1.0.0"]);
    assert_eq!(latest_version(&tags).unwrap().to_string(), "1.0.0");
    let tags = owned(&["1.0.0", "v1.0.0", "v0.1.0"]);
    assert_eq!(latest_version(&tags).unwrap().to_string(), "v1.0.0");
}

#[test]
fn unreadable_tags_are_found() {
    let tags = owned(&["release_candidate", "v1.0.0", "v1.0.0_bad", "v1.0.1_x_y"]);
    assert_eq!(first_unreadable_tag(&tags, false), Some(0));
    assert_eq!(first_unreadable_tag(&tags, true), Some(2));
    assert_eq!(first_unreadable_tag(&owned(&["v1.0.0", "x.y.z", "1.2.3_4_rc"]), false), None);
    assert_eq!(first_unreadable_tag(&Vec::new(), true), None);
}

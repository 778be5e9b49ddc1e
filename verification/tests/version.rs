use mdbook_unlink::version::check_host_version;
use mdbook_unlink::version::VersionStatus;

#[test]
fn versions_in_range_are_compatible() {
    assert_eq!(check_host_version(b"0.4.0"), VersionStatus::Compatible);
    assert_eq!(check_host_version(b"0.4.21"), VersionStatus::Compatible);
}

#[test]
fn versions_outside_the_range_are_incompatible() {
    assert_eq!(check_host_version(b"0.5.0"), VersionStatus::Incompatible);
    assert_eq!(check_host_version(b"0.3.7"), VersionStatus::Incompatible);
    assert_eq!(check_host_version(b"1.0.0"), VersionStatus::Incompatible);
    // A pre-release of the range's floor does not satisfy it.
    assert_eq!(
        check_host_version(b"0.4.0-alpha.1"),
        VersionStatus::Incompatible
    );
}

#[test]
fn unparseable_versions_are_invalid() {
    assert_eq!(check_host_version(b"not a version"), VersionStatus::Invalid);
    assert_eq!(check_host_version(b""), VersionStatus::Invalid);
    assert_eq!(check_host_version(b"0.4"), VersionStatus::Invalid);
    assert_eq!(check_host_version(&[0xff, 0xfe]), VersionStatus::Invalid);
}

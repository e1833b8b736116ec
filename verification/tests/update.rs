use tnsm_relay::update::{check_update, newer, parse_semver, Manifest, ManifestFetch};

fn found(version: &str) -> ManifestFetch {
    ManifestFetch::Found(Manifest {
        version: version.to_string(),
        url: "https://example.com/get".to_string(),
        notes: "what changed".to_string(),
    })
}

fn available(current: &str, latest: &str) -> bool {
    match check_update(current, found(latest)) {
        Ok(info) => info.update_available,
        Err(e) => panic!("{}", e),
    }
}

#[test]
fn versions_are_read() {
    assert_eq!(parse_semver("0.2.0"), (0, 2, 0));
    assert_eq!(parse_semver("1.22.333"), (1, 22, 333));
    assert_eq!(parse_semver("v1.2.3"), (1, 2, 3));
    assert_eq!(parse_semver("vv1.2.3"), (1, 2, 3));
    assert_eq!(parse_semver(" \t v1.2.3 \n"), (1, 2, 3));
    assert_eq!(parse_semver("18446744073709551615.0.1"), (18446744073709551615, 0, 1));
}

#[test]
fn what_is_no_number_is_zero() {
    assert_eq!(parse_semver(""), (0, 0, 0));
    assert_eq!(parse_semver("1"), (1, 0, 0));
    assert_eq!(parse_semver("1.2"), (1, 2, 0));
    assert_eq!(parse_semver("1..3"), (1, 0, 3));
    assert_eq!(parse_semver("1.2.3.4"), (1, 2, 3));
    assert_eq!(parse_semver("1.2.3-beta4"), (1, 2, 3));
    assert_eq!(parse_semver("a.b.c"), (0, 0, 0));
    assert_eq!(parse_semver("1.x2.3"), (1, 0, 3));
    assert_eq!(parse_semver("v 1.2.3"), (0, 2, 3));
    assert_eq!(parse_semver("V1.2.3"), (0, 2, 3));
    assert_eq!(parse_semver("18446744073709551616.7.8"), (0, 7, 8));
    assert_eq!(parse_semver("\u{661}.2.3"), (0, 2, 3));
    assert_eq!(parse_semver("00012.0000000000000000000000000005.3"), (12, 5, 3));
}

#[test]
fn higher_versions_are_newer() {
    assert!(newer((1, 0, 0), (0, 9, 9)));
    assert!(newer((0, 2, 0), (0, 1, 9)));
    assert!(newer((0, 1, 2), (0, 1, 1)));
    assert!(!newer((0, 1, 1), (0, 1, 1)));
    assert!(!newer((0, 1, 1), (0, 1, 2)));
    for a in 0..3u64 {
        for b in 0..3u64 {
            for c in 0..3u64 {
                for d in 0..3u64 {
                    let (x, y) = ((a, b, c), (b, c, d));
                    assert_eq!(newer(x, y), x > y);
                }
            }
        }
    }
}

#[test]
fn notice_is_shown_for_a_higher_version_only() {
    assert!(available("0.1.0", "0.2.0"));
    assert!(available("0.1.0", "v0.1.1"));
    assert!(!available("0.2.0", "0.2.0"));
    assert!(!available("0.2.0", "v0.2.0"));
    assert!(!available("0.2.0", "0.1.9"));
    assert!(available("0.9.0", "0.10.0"));
}

#[test]
fn notice_carries_the_manifest() {
    match check_update("0.1.0", found(" v0.2.0")) {
        Ok(info) => {
            assert_eq!(info.current, "0.1.0");
            assert_eq!(info.latest, " v0.2.0");
            assert!(info.update_available);
            assert_eq!(info.url, "https://example.com/get");
            assert_eq!(info.notes, "what changed");
        }
        Err(e) => panic!("{}", e),
    }
}

#[test]
fn failed_checks_say_why() {
    let fail = |fetch: ManifestFetch| match check_update("0.1.0", fetch) {
        Ok(_) => panic!("there is no notice"),
        Err(e) => e,
    };
    assert_eq!(fail(ManifestFetch::Unreachable("no route".to_string())), "fetch manifest: no route");
    assert_eq!(fail(ManifestFetch::Refused("404 Not Found".to_string())), "manifest HTTP 404 Not Found");
    assert_eq!(fail(ManifestFetch::Unreadable("cut off".to_string())), "read manifest body: cut off");
    assert_eq!(fail(ManifestFetch::Malformed("no version".to_string())), "parse manifest: no version");
}

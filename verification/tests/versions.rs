use volts::models::Version;
use volts::version::{keep_later, latest_version, SemVer};

fn v(text: &str) -> SemVer {
    SemVer::parse(text).unwrap()
}

fn row(id: i32, num: &str) -> Version {
    Version {
        id,
        plugin_id: 1,
        updated_at: 0,
        created_at: 0,
        num: num.to_string(),
        yanked: false,
        downloads: 0,
    }
}

fn rows(nums: &[&str]) -> Vec<Version> {
    nums.iter().enumerate().map(|(i, n)| row(i as i32 + 1, n)).collect()
}

fn latest(nums: &[&str]) -> Option<String> {
    let r = rows(nums);
    latest_version(&r).map(|i| r[i].num.clone())
}

#[test]
fn parse_takes_a_version_apart() {
    let p = v("1.2.3-alpha.1+build.5");
    assert_eq!((p.major, p.minor, p.patch), (1, 2, 3));
    assert_eq!(p.pre, b"alpha.1".to_vec());
    assert_eq!(p.build, b"build.5".to_vec());
    let plain = v("10.0.7");
    assert!(plain.pre.is_empty() && plain.build.is_empty());
    for bad in ["", "1", "1.2", "1.2.3.4", "v1.2.3", "01.2.3", " 1.2.3", "1.2.3-", "latest"] {
        assert_eq!(SemVer::parse(bad), None, "{bad}");
    }
}

#[test]
fn latest_of_the_four_versions_is_the_pre_release_of_two() {
    let four = ["1.0.0", "1.2.0", "1.10.0", "2.0.0-alpha"];
    assert_eq!(latest(&four), Some("2.0.0-alpha".to_string()));
    assert_eq!(latest(&four[..3]), Some("1.10.0".to_string()));
    assert_eq!(latest(&["2.0.0-alpha", "1.10.0", "2.0.0", "1.0.0"]), Some("2.0.0".to_string()));
}

#[test]
fn the_chain_of_the_semver_standard() {
    let chain = [
        "1.0.0-alpha",
        "1.0.0-alpha.1",
        "1.0.0-alpha.beta",
        "1.0.0-beta",
        "1.0.0-beta.2",
        "1.0.0-beta.11",
        "1.0.0-rc.1",
        "1.0.0",
    ];
    for i in 0..chain.len() {
        for j in 0..chain.len() {
            let later = if i > j { chain[i] } else { chain[j] };
            assert_eq!(latest(&[chain[i], chain[j]]), Some(later.to_string()));
        }
    }
}

#[test]
fn the_later_of_two_is_the_later_by_the_semver_crate() {
    let all = [
        "0.0.1", "0.1.0", "1.0.0", "1.0.0-0", "1.0.0-1", "1.0.0-10", "1.0.0-9", "1.0.0-a",
        "1.0.0-a.0", "1.0.0-a-b", "1.0.0-A", "1.0.0-0a", "1.0.0-pre.8", "1.0.0-pre.12",
        "1.0.0-pre12", "1.0.0-pre8", "1.0.0-x.7.z.92", "1.5.0", "1.19.0", "2.0.0-alpha",
        "18446744073709551615.0.0", "1.0.0-99999999999999999999999", "1.0.0+0", "1.0.0+00",
        "1.0.0+1", "1.0.0+01", "1.0.0+2", "1.0.0+10", "1.0.0+a", "1.0.0+a.1", "1.0.0+0a",
        "1.0.0-rc.1+5", "1.0.0-rc.1+05", "1.0.0-rc.1",
    ];
    for a in all {
        for b in all {
            let first = semver::Version::parse(a).unwrap();
            let second = semver::Version::parse(b).unwrap();
            let expected = if second >= first { b } else { a };
            assert_eq!(latest(&[a, b]), Some(expected.to_string()), "{a} {b}");
        }
    }
}

#[test]
fn what_is_no_version_is_passed_over_and_of_equals_the_last_is_taken() {
    assert_eq!(latest_version(&vec![]), None);
    assert_eq!(latest(&["not a version", "also-not"]), None);
    let r = rows(&["x", "0.1.0", "y"]);
    assert_eq!(latest_version(&r), Some(1));
    let r = rows(&["2.0.0", "1.0.0"]);
    assert_eq!(latest_version(&r), Some(0));
    let r = rows(&["1.0.0+a", "0.9.0", "1.0.0+b"]);
    assert_eq!(latest_version(&r), Some(2));
    let r = rows(&["1.0.0+b", "0.9.0", "1.0.0+a"]);
    assert_eq!(latest_version(&r), Some(0));
    let r = rows(&["1.0.0", "1.0.0"]);
    assert_eq!(latest_version(&r), Some(1));
}

#[test]
fn the_latest_so_far_step_by_step() {
    assert_eq!(keep_later(None, 0, false, None), None);
    assert_eq!(keep_later(None, 0, true, None), Some(0));
    assert_eq!(keep_later(Some(0), 1, false, Some(1)), Some(0));
    assert_eq!(keep_later(Some(0), 1, true, Some(1)), Some(1));
    assert_eq!(keep_later(Some(0), 1, true, Some(0)), Some(1));
    assert_eq!(keep_later(Some(0), 1, true, Some(-1)), Some(0));
    assert_eq!(keep_later(Some(3), 4, true, None), Some(3));
}

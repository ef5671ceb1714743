use release_engine::version::{Version, VersionBump};

#[test]
fn bumps_raise_the_right_number() {
    let v = Version::new(1, 2, 3);
    assert_eq!(v.next(VersionBump::Patch), Some(Version::new(1, 2, 4)));
    assert_eq!(v.next(VersionBump::Minor), Some(Version::new(1, 3, 0)));
    assert_eq!(v.next(VersionBump::Major), Some(Version::new(2, 0, 0)));
    assert_eq!(v.next(VersionBump::Unchanged), Some(v));
}

#[test]
fn before_one_a_major_bump_raises_the_minor_number() {
    assert_eq!(Version::new(0, 1, 5).next(VersionBump::Major), Some(Version::new(0, 2, 0)));
    assert_eq!(Version::new(0, 0, 3).next(VersionBump::Major), Some(Version::new(0, 1, 0)));
    assert_eq!(Version::new(0, 1, 5).next(VersionBump::Minor), Some(Version::new(0, 2, 0)));
    assert_eq!(Version::new(0, 1, 5).next(VersionBump::Patch), Some(Version::new(0, 1, 6)));
}

#[test]
fn the_largest_number_cannot_be_raised() {
    let max = u64::MAX;
    assert_eq!(Version::new(1, 2, max).next(VersionBump::Patch), None);
    assert_eq!(Version::new(1, max, 0).next(VersionBump::Minor), None);
    assert_eq!(Version::new(max, 0, 0).next(VersionBump::Major), None);
    assert_eq!(Version::new(0, max, 0).next(VersionBump::Major), None);
    assert_eq!(Version::new(1, max, max).next(VersionBump::Major), Some(Version::new(2, 0, 0)));
    assert_eq!(Version::new(max, max, max).next(VersionBump::Unchanged), Some(Version::new(max, max, max)));
}

#[test]
fn every_real_bump_moves_forward() {
    let versions = [
        Version::new(0, 0, 0),
        Version::new(0, 0, 9),
        Version::new(0, 9, 9),
        Version::new(1, 0, 0),
        Version::new(3, 14, 15),
    ];
    for v in versions {
        let mut last = v;
        for bump in [VersionBump::Patch, VersionBump::Minor, VersionBump::Major] {
            let next = v.next(bump).unwrap();
            assert!(v.is_before(&next), "{v:?} {bump:?}");
            assert!(!next.is_before(&v));
            assert!(last == next || last.is_before(&next) || bump == VersionBump::Patch);
            last = next;
        }
    }
}

#[test]
fn versions_are_ordered_by_major_minor_patch() {
    assert!(Version::new(1, 9, 9).is_before(&Version::new(2, 0, 0)));
    assert!(Version::new(1, 2, 9).is_before(&Version::new(1, 3, 0)));
    assert!(Version::new(1, 2, 3).is_before(&Version::new(1, 2, 4)));
    assert!(!Version::new(1, 2, 3).is_before(&Version::new(1, 2, 3)));
    assert!(!Version::new(0, 10, 0).is_before(&Version::new(0, 9, 0)));
}

#[test]
fn the_heavier_bump_stands() {
    let all = [VersionBump::Unchanged, VersionBump::Patch, VersionBump::Minor, VersionBump::Major];
    for (i, a) in all.iter().enumerate() {
        for (j, b) in all.iter().enumerate() {
            let expected = if i >= j { *a } else { *b };
            assert_eq!((*a).max(*b), expected);
            assert_eq!(a < b, i < j);
        }
        assert_eq!(a.weight() as usize, i);
        assert_eq!(a.is_some(), i > 0);
    }
}

#[test]
fn versions_are_written_with_dots() {
    assert_eq!(Version::new(0, 1, 0).to_text(), "0.1.0");
    assert_eq!(Version::new(12, 0, 345).to_text(), "12.0.345");
}

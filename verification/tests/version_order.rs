use aptcheckr::version::compare_versions;

#[test]
fn equal_versions() {
    assert_eq!(compare_versions("1.0", "1.0"), 0);
    assert_eq!(compare_versions("", ""), 0);
    assert_eq!(compare_versions("2.31-13+deb11u5", "2.31-13+deb11u5"), 0);
}

#[test]
fn numeric_parts_compare_numerically() {
    assert_eq!(compare_versions("1.9", "1.10"), -1);
    assert_eq!(compare_versions("1.10", "1.9"), 1);
    // Leading zeros do not matter.
    assert_eq!(compare_versions("1.02", "1.2"), 0);
    assert_eq!(compare_versions("0099", "99"), 0);
    // Long digit runs are compared by value, however long.
    assert_eq!(
        compare_versions("1.123456789012345678901234567890", "1.123456789012345678901234567891"),
        -1
    );
}

#[test]
fn epoch_dominates() {
    assert_eq!(compare_versions("1:1.0", "2.0"), 1);
    assert_eq!(compare_versions("0:2.0", "2.0"), 0);
    assert_eq!(compare_versions("1:0.1", "2:0.0"), -1);
}

#[test]
fn tilde_sorts_before_everything() {
    assert_eq!(compare_versions("1.0~rc1", "1.0"), -1);
    assert_eq!(compare_versions("1.0~~", "1.0~"), -1);
    assert_eq!(compare_versions("1.0~~a", "1.0~~"), 1);
    assert_eq!(compare_versions("3.0.0~~alpha1", "3.0.0"), -1);
}

#[test]
fn letters_sort_before_other_characters() {
    // In a non-digit part, letters come before non-letters.
    assert_eq!(compare_versions("1.0a", "1.0+"), -1);
    assert_eq!(compare_versions("1.0+", "1.0a"), 1);
}

#[test]
fn revision_split_at_last_dash() {
    assert_eq!(compare_versions("1.2.3-1ubuntu5", "1.2.3-1ubuntu6"), -1);
    assert_eq!(compare_versions("1.2.3-1ubuntu6", "1.2.3-1ubuntu5"), 1);
    // A missing revision counts as empty, equal to "0" numerically.
    assert_eq!(compare_versions("1.0", "1.0-0"), 0);
    // The upstream part may itself contain dashes.
    assert_eq!(compare_versions("1-2-3", "1-2-4"), -1);
}

#[test]
fn shorter_part_ends_first() {
    assert_eq!(compare_versions("1.0", "1.0.1"), -1);
    assert_eq!(compare_versions("1.0a", "1.0"), 1);
}

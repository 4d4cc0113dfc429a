use proddle::tags::{IncludeTag, TagFilter};

fn included(pairs: &[(&str, i64)]) -> Vec<IncludeTag> {
    pairs
        .iter()
        .map(|(tag, interval)| IncludeTag { tag: tag.to_string(), interval: *interval })
        .collect()
}

fn tags(names: &[&str]) -> Vec<String> {
    names.iter().map(|name| name.to_string()).collect()
}

fn filter(pairs: &[(&str, i64)], excluded: &[&str]) -> TagFilter {
    TagFilter::new(included(pairs), tags(excluded)).unwrap()
}

#[test]
fn single_included_tag_gives_its_interval() {
    let filter = filter(&[("web", 60)], &[]);
    assert_eq!(filter.interval_for(&tags(&["web"])), Some(60));
}

#[test]
fn excluded_tag_drops_whatever_is_included() {
    let filter = filter(&[("web", 60), ("core", 30)], &["beta"]);
    assert_eq!(filter.interval_for(&tags(&["web", "beta"])), None);
    assert_eq!(filter.interval_for(&tags(&["beta", "core", "web"])), None);
    assert_eq!(filter.interval_for(&tags(&["beta"])), None);
}

#[test]
fn no_included_tag_drops() {
    let filter = filter(&[("web", 60)], &["beta"]);
    assert_eq!(filter.interval_for(&tags(&["mail"])), None);
    assert_eq!(filter.interval_for(&tags(&[])), None);
}

#[test]
fn least_interval_of_the_matching_tags_wins() {
    let filter = filter(&[("web", 60), ("core", 30), ("slow", 3600), ("other", 5)], &[]);
    assert_eq!(filter.interval_for(&tags(&["web", "core", "slow"])), Some(30));
    assert_eq!(filter.interval_for(&tags(&["slow", "web"])), Some(60));
    assert_eq!(filter.interval_for(&tags(&["slow"])), Some(3600));
}

#[test]
fn repeated_included_tag_counts_with_each_interval() {
    let filter = filter(&[("web", 60), ("web", 20)], &[]);
    assert_eq!(filter.interval_for(&tags(&["web"])), Some(20));
}

#[test]
fn greatest_interval_is_an_interval_like_any_other() {
    let filter = filter(&[("web", i64::MAX)], &[]);
    assert_eq!(filter.interval_for(&tags(&["web"])), Some(i64::MAX));
}

#[test]
fn empty_filter_drops_everything() {
    let filter = filter(&[], &[]);
    assert_eq!(filter.interval_for(&tags(&["web"])), None);
}

#[test]
fn filter_refuses_intervals_that_are_not_positive() {
    assert!(TagFilter::new(included(&[("web", 0)]), Vec::new()).is_none());
    assert!(TagFilter::new(included(&[("web", 60), ("core", -5)]), Vec::new()).is_none());
    assert!(TagFilter::new(included(&[("web", 1)]), Vec::new()).is_some());
    assert!(TagFilter::new(Vec::new(), tags(&["beta"])).is_some());
}

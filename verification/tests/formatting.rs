use poof::fmt::{format_duration, reduced_id, ReducedId};

#[test]
fn durations_pick_the_largest_fitting_unit() {
    assert_eq!(format_duration(0), "0ms");
    assert_eq!(format_duration(999), "999ms");
    assert_eq!(format_duration(1000), "1s");
    assert_eq!(format_duration(59_999), "59s");
    assert_eq!(format_duration(60_000), "1min");
    assert_eq!(format_duration(3_599_999), "59min");
    assert_eq!(format_duration(3_600_000), "1h");
    assert_eq!(format_duration(86_399_999), "23h");
    assert_eq!(format_duration(86_400_000), "1d");
    assert_eq!(format_duration(172_800_000), "2d");
}

#[test]
fn long_identifiers_are_reduced_to_their_ends() {
    let id = "0123456789abcdef0123456789abcdef0123456789abcdef0123456789abcdef";
    assert_eq!(reduced_id(id), "012345...abcdef");
    assert_eq!(id.to_string().reduced(), "012345...abcdef");
}

#[test]
fn short_identifiers_stay_whole() {
    assert_eq!(reduced_id("short"), "short");
}

use songarr::vtrack::{base62_22, civil_from_days, format_timestamp, is_virtual_id, new_virtual_id, now_utc, ID_PREFIX};

#[test]
fn virtual_ids_have_expected_shape() {
    let id = new_virtual_id();
    assert_eq!(id.len(), ID_PREFIX.len() + 22);
    assert!(is_virtual_id(&id));
    assert!(id[ID_PREFIX.len()..].chars().all(|c| c.is_ascii_alphanumeric()));
    assert_ne!(id, new_virtual_id());
}

#[test]
fn base62_is_fixed_width_and_ordered() {
    assert_eq!(base62_22(0).len(), 22);
    assert_eq!(base62_22(u128::MAX).len(), 22);
    assert_eq!(base62_22(0), "0".repeat(22));
    assert_eq!(base62_22(61), format!("{}z", "0".repeat(21)));
    assert_eq!(base62_22(62), format!("{}10", "0".repeat(20)));
}

#[test]
fn timestamps_look_iso8601() {
    let ts = now_utc();
    assert_eq!(ts.len(), 20, "{ts}");
    assert!(ts.starts_with("20") && ts.ends_with('Z'), "{ts}");
}

#[test]
fn civil_dates_match_known_days() {
    assert_eq!(civil_from_days(0), (1970, 1, 1));
    assert_eq!(civil_from_days(19_723), (2024, 1, 1));
    assert_eq!(civil_from_days(11_016), (2000, 2, 29));
    assert_eq!(civil_from_days(-1), (1969, 12, 31));
    assert_eq!(format_timestamp(1_700_000_000), "2023-11-14T22:13:20Z");
}

#[test]
fn virtual_id_prefix_is_checked() {
    assert!(is_virtual_id("sgr_abc"));
    assert!(!is_virtual_id("sga_abc"));
    assert!(!is_virtual_id("sgr"));
}

#[test]
fn clock_readings_are_stored_as_i64() {
    assert_eq!(songarr::vtrack::epoch_secs_of(1_700_000_000), 1_700_000_000);
    assert_eq!(songarr::vtrack::epoch_secs_of(u64::MAX), i64::MAX);
    assert!(songarr::vtrack::epoch_secs() > 1_600_000_000);
}

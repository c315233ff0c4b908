use chathub::dm::allowed_dm;
use chathub::dm::dm_channel;
use chathub::dm::hash_username;
use chathub::dm::is_dm;
use chathub::dm::parse_dm;

#[test]
fn hash_username_is_deterministic_and_non_negative() {
    let a = hash_username("alice");
    let b = hash_username("alice");
    assert_eq!(a, b);
    assert!(a >= 0);
    assert!(hash_username("bob") >= 0);
}

#[test]
fn distinct_names_hash_apart() {
    assert_ne!(hash_username("alice"), hash_username("bob"));
    assert_ne!(hash_username("alice"), hash_username("Alice"));
}

#[test]
fn dm_channel_is_symmetric() {
    let ab = dm_channel("alice", "bob");
    let ba = dm_channel("bob", "alice");
    assert_eq!(ab, ba);
}

#[test]
fn dm_channel_encodes_sorted_hashes() {
    let name = dm_channel("alice", "bob");
    let ha = hash_username("alice") as u64;
    let hb = hash_username("bob") as u64;
    let lo = ha.min(hb);
    let hi = ha.max(hb);
    assert_eq!(name, format!("DM_{}_{}", lo, hi));
    assert_eq!(parse_dm(&name), Some((lo, hi)));
}

#[test]
fn dm_channel_with_self_repeats_the_hash() {
    let name = dm_channel("alice", "alice");
    let h = hash_username("alice") as u64;
    assert_eq!(name, format!("DM_{}_{}", h, h));
}

#[test]
fn is_dm_checks_the_marker() {
    assert!(is_dm("DM_1_2"));
    assert!(is_dm("DM_"));
    assert!(!is_dm("general"));
    assert!(!is_dm("DM"));
    assert!(!is_dm(""));
    assert!(!is_dm("dm_1_2"));
}

#[test]
fn parse_dm_rejects_malformed_names() {
    assert_eq!(parse_dm("general"), None);
    assert_eq!(parse_dm("DM_"), None);
    assert_eq!(parse_dm("DM_12"), None);
    assert_eq!(parse_dm("DM_12_"), None);
    assert_eq!(parse_dm("DM__34"), None);
    assert_eq!(parse_dm("DM_12_34_56"), None);
    assert_eq!(parse_dm("DM_1a_34"), None);
    assert_eq!(parse_dm("DM_012_34"), None);
    assert_eq!(parse_dm("DM_12_99999999999999999999999999"), None);
}

#[test]
fn parse_dm_reads_back_a_pair() {
    assert_eq!(parse_dm("DM_12_34"), Some((12, 34)));
    assert_eq!(parse_dm("DM_0_0"), Some((0, 0)));
    assert_eq!(parse_dm("DM_34_12"), Some((34, 12)));
}

#[test]
fn allowed_dm_admits_exactly_the_participants() {
    let name = dm_channel("alice", "bob");
    assert!(allowed_dm(&name, "alice"));
    assert!(allowed_dm(&name, "bob"));
    assert!(!allowed_dm(&name, "carol"));
}

#[test]
fn allowed_dm_rejects_everyone_on_a_malformed_name() {
    assert!(!allowed_dm("DM_not_numbers", "alice"));
    assert!(!allowed_dm("general", "alice"));
}

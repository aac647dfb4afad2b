use std::collections::{HashMap, HashSet};
use stalkerhek_engine::api::{apply_filter_action, request_profile_id, SyncFilterState};
use stalkerhek_engine::filter::FilterStore;

fn s(x: &str) -> String {
    x.to_string()
}

fn req(pairs: &[(&str, &str)]) -> Vec<(String, String)> {
    pairs.iter().map(|(k, v)| (s(k), s(v))).collect()
}

#[test]
fn blocked_channel_is_hidden() {
    let mut f = FilterStore::new();
    assert!(f.is_channel_allowed(1, "ffmpeg http://a/1", "10"));
    f.set_channel_disabled(1, s("ffmpeg http://a/1"), true);
    assert!(!f.is_channel_allowed(1, "ffmpeg http://a/1", "10"));
    assert!(f.is_channel_allowed(1, "ffmpeg http://a/2", "10"));
}

#[test]
fn disabled_genre_hides_channels_unless_allowed() {
    let mut f = FilterStore::new();
    f.set_genre_disabled(1, s("10"), true);
    assert!(f.is_genre_disabled(1, "10"));
    assert!(!f.is_channel_allowed(1, "c1", "10"));
    f.set_channel_disabled(1, s("c1"), false);
    assert!(f.is_channel_allowed(1, "c1", "10"));
    assert!(!f.is_channel_allowed(1, "c2", "10"));
    f.set_genre_disabled(1, s("10"), false);
    assert!(f.is_channel_allowed(1, "c2", "10"));
}

#[test]
fn empty_genre_id_is_never_disabled() {
    let mut f = FilterStore::new();
    f.set_genre_disabled(1, s(""), true);
    assert!(f.is_channel_allowed(1, "c1", ""));
}

#[test]
fn filters_are_per_profile() {
    let mut f = FilterStore::new();
    f.set_channel_disabled(1, s("c1"), true);
    f.set_rename(1, s("UK: "), s(""));
    assert!(f.is_channel_allowed(2, "c1", "10"));
    assert_eq!(f.apply_rename(2, "UK: BBC One"), "UK: BBC One");
    assert_eq!(f.apply_rename(1, "UK: BBC One"), "BBC One");
}

#[test]
fn rename_strips_prefix_suffix_and_trims() {
    let mut f = FilterStore::new();
    f.set_rename(3, s("|EN| "), s(" HD"));
    assert_eq!(f.apply_rename(3, "|EN| Sky News HD"), "Sky News");
    assert_eq!(f.apply_rename(3, "  Other  "), "Other");
    assert!(f.has_filters(3));
    f.set_rename(3, s(""), s(""));
    assert_eq!(f.apply_rename(3, "|EN| Sky News HD"), "|EN| Sky News HD");
}

#[test]
fn genre_rename_falls_back_to_original() {
    let mut f = FilterStore::new();
    assert_eq!(f.apply_genre_rename(1, "7", "Sports"), "Sports");
    f.set_genre_rename(1, s("7"), s("Sport"));
    assert_eq!(f.apply_genre_rename(1, "7", "Sports"), "Sport");
    f.set_genre_rename(1, s("7"), s(""));
    assert_eq!(f.apply_genre_rename(1, "7", "Sports"), "Sports");
}

#[test]
fn reset_clears_rules_but_keeps_renames() {
    let mut f = FilterStore::new();
    f.set_channel_disabled(1, s("c1"), true);
    f.set_genre_disabled(1, s("9"), true);
    f.set_rename(1, s("X "), s(""));
    f.reset_profile(1);
    assert!(f.is_channel_allowed(1, "c1", "9"));
    assert!(!f.is_genre_disabled(1, "9"));
    assert_eq!(f.apply_rename(1, "X Y"), "Y");
}

#[test]
fn snapshot_round_trip_keeps_rules() {
    let mut f = FilterStore::new();
    f.set_channel_disabled(4, s("c1"), true);
    f.set_genre_disabled(4, s("5"), true);
    f.set_channel_disabled(4, s("c2"), false);
    f.set_rename(4, s("A "), s(" B"));
    f.set_genre_rename(4, s("5"), s("Five"));
    let snap = f.to_snapshot();
    let mut g = FilterStore::new();
    g.load_snapshot(snap);
    for (cmd, genre) in [("c1", "5"), ("c2", "5"), ("c3", "5"), ("c3", "6")] {
        assert_eq!(g.is_channel_allowed(4, cmd, genre), f.is_channel_allowed(4, cmd, genre));
    }
    assert_eq!(g.apply_rename(4, "A x B"), "x");
    assert_eq!(g.apply_genre_rename(4, "5", "orig"), "Five");
    assert_eq!(g.profile_state(4).version, f.profile_state(4).version);
}

#[test]
fn snapshot_load_keeps_only_true_flags() {
    let mut f = FilterStore::new();
    let st = SyncFilterState {
        disabled_genres: vec![(s("1"), true), (s("2"), false)],
        disabled_channels: vec![(s("c"), true)],
        enabled_channels: vec![],
        rename_prefix: s(""),
        rename_suffix: s(""),
        genre_renames: vec![(s("1"), s("")), (s("2"), s("Two"))],
        version: 7,
    };
    f.load_snapshot(vec![(9, st)]);
    assert!(f.is_genre_disabled(9, "1"));
    assert!(!f.is_genre_disabled(9, "2"));
    assert!(!f.is_channel_allowed(9, "c", ""));
    assert_eq!(f.apply_genre_rename(9, "1", "orig"), "orig");
    assert_eq!(f.apply_genre_rename(9, "2", "orig"), "Two");
    assert_eq!(f.profile_state(9).version, 7);
}

#[test]
fn filter_actions_from_requests() {
    let mut f = FilterStore::new();
    assert!(apply_filter_action(&mut f, &req(&[("profile_id", "2"), ("action", "toggle_channel"), ("cmd", "c1")])));
    assert!(!f.is_channel_allowed(2, "c1", ""));
    assert!(apply_filter_action(&mut f, &req(&[("profile_id", "2"), ("action", "toggle_channel"), ("cmd", "c1"), ("disabled", "0")])));
    assert!(f.is_channel_allowed(2, "c1", ""));
    assert!(apply_filter_action(&mut f, &req(&[("profile_id", "2"), ("action", "rename_genre"), ("genre_rename_id", "4"), ("genre_rename_name", "News")])));
    assert_eq!(f.apply_genre_rename(2, "4", "x"), "News");
    assert!(!apply_filter_action(&mut f, &req(&[("profile_id", "2"), ("action", "explode")])));
}

#[test]
fn filter_request_profile_id() {
    assert_eq!(request_profile_id(&req(&[("action", "reset"), ("profile_id", "7")])), 7);
    assert_eq!(request_profile_id(&req(&[("profile_id", "-3")])), -3);
    assert_eq!(request_profile_id(&req(&[("profile_id", "x")])), 0);
    assert_eq!(request_profile_id(&req(&[("action", "reset")])), 0);
}

#[test]
fn whole_store_round_trip() {
    fn sets(m: &HashMap<i32, Vec<String>>) -> HashMap<i32, HashSet<String>> {
        m.iter().filter(|(_, v)| !v.is_empty()).map(|(k, v)| (*k, v.iter().cloned().collect())).collect()
    }
    fn maps(m: &HashMap<i32, Vec<(String, String)>>) -> HashMap<i32, HashMap<String, String>> {
        m.iter().map(|(k, v)| (*k, v.iter().cloned().collect())).collect()
    }
    let mut f = FilterStore::new();
    f.set_channel_disabled(4, s("c1"), true);
    f.set_genre_disabled(4, s("5"), true);
    f.set_genre_disabled(7, s("9"), true);
    f.set_rename(7, s("X "), s(""));
    f.set_genre_rename(4, s("5"), s("Five"));
    // Blocking a channel leaves an empty allowed set behind; loading drops empty sets.
    assert_eq!(f.enabled_channels.get(&4).map(|v| v.len()), Some(0));
    let snap = f.to_snapshot();
    assert!(stalkerhek_engine::api::distinct_profile_ids(&snap));
    let mut g = FilterStore::new();
    g.load_snapshot(snap);
    assert_eq!(sets(&g.disabled_genres), sets(&f.disabled_genres));
    assert_eq!(sets(&g.disabled_channels), sets(&f.disabled_channels));
    assert_eq!(sets(&g.enabled_channels), sets(&f.enabled_channels));
    assert_eq!(maps(&g.genre_renames), maps(&f.genre_renames));
    assert_eq!(g.rename_prefix, f.rename_prefix);
    assert_eq!(g.versions, f.versions);
    let dup = vec![(1, f.profile_state(4)), (1, f.profile_state(7))];
    assert!(!stalkerhek_engine::api::distinct_profile_ids(&dup));
}

#[test]
fn stored_sets_hold_each_entry_once() {
    let mut f = FilterStore::new();
    f.set_genre_disabled(1, s("10"), true);
    f.set_genre_disabled(1, s("10"), true);
    assert_eq!(f.disabled_genres.get(&1).map(|v| v.len()), Some(1));
    f.set_genre_rename(1, s("10"), s("A"));
    f.set_genre_rename(1, s("10"), s("B"));
    assert_eq!(f.genre_renames.get(&1).map(|v| v.len()), Some(1));
    assert_eq!(f.apply_genre_rename(1, "10", "x"), "B");
}

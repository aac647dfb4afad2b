//! Plain data exchanged with the persistence layer and the control API.
use vstd::prelude::*;
use crate::filter::{FilterModel, FilterStore, flag_pairs, str_pairs, true_keys, non_empty_values, pairs_get};
use crate::text::{chars_of, string_from_chars, parse_i32, parse_i32_str, str_eq};

verus! {

/// The filter rules of one profile as persisted and synchronised: each map is a list
/// of key/value pairs (a later pair overrides an earlier one with the same key).
#[derive(Debug, Clone)]
pub struct SyncFilterState {
    pub disabled_genres: Vec<(String, bool)>,
    pub disabled_channels: Vec<(String, bool)>,
    pub enabled_channels: Vec<(String, bool)>,
    pub rename_prefix: String,
    pub rename_suffix: String,
    pub genre_renames: Vec<(String, String)>,
    pub version: u64,
}

impl SyncFilterState {
    /// The genre ids flagged `true`.
    pub open spec fn genres(self) -> Set<Seq<char>> {
        true_keys(flag_pairs(self.disabled_genres@))
    }

    /// The channel commands flagged `true` as blocked.
    pub open spec fn blocked(self) -> Set<Seq<char>> {
        true_keys(flag_pairs(self.disabled_channels@))
    }

    /// The channel commands flagged `true` as allowed.
    pub open spec fn allowed(self) -> Set<Seq<char>> {
        true_keys(flag_pairs(self.enabled_channels@))
    }

    /// The genre names that are not empty.
    pub open spec fn renames(self) -> Map<Seq<char>, Seq<char>> {
        non_empty_values(str_pairs(self.genre_renames@))
    }
}

/// The model after loading one profile's state: non-empty rule sets replace those of
/// the profile, and the version is taken over.
pub open spec fn load_entry(m: FilterModel, pid: i32, st: SyncFilterState) -> FilterModel {
    FilterModel {
        disabled_genres: if st.genres() != Set::<Seq<char>>::empty() {
            m.disabled_genres.insert(pid, st.genres())
        } else {
            m.disabled_genres
        },
        disabled_channels: if st.blocked() != Set::<Seq<char>>::empty() {
            m.disabled_channels.insert(pid, st.blocked())
        } else {
            m.disabled_channels
        },
        enabled_channels: if st.allowed() != Set::<Seq<char>>::empty() {
            m.enabled_channels.insert(pid, st.allowed())
        } else {
            m.enabled_channels
        },
        rename_prefix: if st.rename_prefix@.len() > 0 {
            m.rename_prefix.insert(pid, st.rename_prefix@)
        } else {
            m.rename_prefix
        },
        rename_suffix: if st.rename_suffix@.len() > 0 {
            m.rename_suffix.insert(pid, st.rename_suffix@)
        } else {
            m.rename_suffix
        },
        genre_renames: if st.renames() != Map::<Seq<char>, Seq<char>>::empty() {
            m.genre_renames.insert(pid, st.renames())
        } else {
            m.genre_renames
        },
        versions: m.versions.insert(pid, st.version),
    }
}

/// The model that loading a whole snapshot produces, entries taken in order.
pub open spec fn loaded(snap: Seq<(i32, SyncFilterState)>) -> FilterModel
    decreases snap.len(),
{
    if snap.len() == 0 {
        FilterModel::empty()
    } else {
        load_entry(loaded(snap.drop_last()), snap.last().0, snap.last().1)
    }
}

} // verus!

verus! {

impl FilterModel {
    /// Profile `pid` has the same rules (and version) in both models.
    pub open spec fn same_rules(self, other: FilterModel, pid: i32) -> bool {
        &&& self.disabled_genres_of(pid) == other.disabled_genres_of(pid)
        &&& self.disabled_channels_of(pid) == other.disabled_channels_of(pid)
        &&& self.enabled_channels_of(pid) == other.enabled_channels_of(pid)
        &&& self.prefix_of(pid) == other.prefix_of(pid)
        &&& self.suffix_of(pid) == other.suffix_of(pid)
        &&& self.genre_renames_of(pid) == other.genre_renames_of(pid)
        &&& self.version_of(pid) == other.version_of(pid)
    }

    /// No configured genre name is empty.
    pub open spec fn no_empty_genre_names(self) -> bool {
        forall|pid: i32, g: Seq<char>|
            #![trigger self.genre_renames[pid][g]]
            self.genre_renames.contains_key(pid) && self.genre_renames[pid].contains_key(g)
                ==> self.genre_renames[pid][g].len() > 0
    }
}

pub open spec fn snapshot_ids(snap: Seq<(i32, SyncFilterState)>) -> Seq<i32> {
    snap.map_values(|e: (i32, SyncFilterState)| e.0)
}

/// Whether a snapshot names each profile once.
pub fn distinct_profile_ids(snap: &Vec<(i32, SyncFilterState)>) -> (r: bool)
    ensures
        r == snapshot_ids(snap@).no_duplicates(),
{
    let ghost ids = snapshot_ids(snap@);
    let mut i: usize = 0;
    while i < snap.len()
        invariant
            i <= snap.len(),
            ids == snapshot_ids(snap@),
            forall|a: int, b: int| 0 <= a < b < snap.len() && a < i ==> ids[a] != ids[b],
        decreases snap.len() - i,
    {
        let mut j: usize = i + 1;
        while j < snap.len()
            invariant
                i < j <= snap.len(),
                ids == snapshot_ids(snap@),
                forall|a: int, b: int| 0 <= a < b < snap.len() && a < i ==> ids[a] != ids[b],
                forall|b: int| i < b < j ==> ids[i as int] != ids[b],
            decreases snap.len() - j,
        {
            if snap[i].0 == snap[j].0 {
                assert(ids[i as int] == ids[j as int]);
                return false;
            }
            j += 1;
        }
        i += 1;
    }
    true
}

proof fn lemma_loaded_profile(snap: Seq<(i32, SyncFilterState)>, pid: i32)
    requires
        snapshot_ids(snap).no_duplicates(),
    ensures
        forall|i: int| 0 <= i < snap.len() && snap[i].0 == pid ==> loaded(snap).same_rules(
            load_entry(FilterModel::empty(), pid, snap[i].1),
            pid,
        ),
        (forall|i: int| 0 <= i < snap.len() ==> snap[i].0 != pid) ==> loaded(snap).same_rules(
            FilterModel::empty(),
            pid,
        ),
    decreases snap.len(),
{
    if snap.len() > 0 {
        let s0 = snap.drop_last();
        assert(snapshot_ids(s0) =~= snapshot_ids(snap).drop_last());
        assert(snapshot_ids(s0).no_duplicates()) by {
            assert forall|a: int, b: int| 0 <= a < snapshot_ids(s0).len() && 0 <= b < snapshot_ids(s0).len() && a != b implies snapshot_ids(s0)[a] != snapshot_ids(s0)[b] by {
                assert(snapshot_ids(s0)[a] == snapshot_ids(snap)[a]);
                assert(snapshot_ids(s0)[b] == snapshot_ids(snap)[b]);
            }
        }
        lemma_loaded_profile(s0, pid);
        let last = snap.last();
        let n = snap.len() - 1;
        if last.0 == pid {
            assert forall|i: int| 0 <= i < s0.len() implies s0[i].0 != pid by {
                assert(snapshot_ids(snap)[i] == snap[i].0);
                assert(snapshot_ids(snap)[n] == snap[n].0);
            }
            assert forall|i: int| 0 <= i < snap.len() && snap[i].0 == pid implies loaded(snap).same_rules(
                load_entry(FilterModel::empty(), pid, snap[i].1),
                pid,
            ) by {
                if i < n {
                    assert(s0[i].0 == pid);
                }
            }
        } else {
            assert forall|i: int| 0 <= i < snap.len() && snap[i].0 == pid implies loaded(snap).same_rules(
                load_entry(FilterModel::empty(), pid, snap[i].1),
                pid,
            ) by {
                assert(i < n);
                assert(s0[i] == snap[i]);
            }
            if forall|i: int| 0 <= i < snap.len() ==> snap[i].0 != pid {
                assert forall|i: int| 0 <= i < s0.len() implies s0[i].0 != pid by {
                    assert(s0[i] == snap[i]);
                }
            }
        }
    }
}

impl FilterModel {
    /// Whether the model holds no empty entries: every stored set, prefix, suffix and
    /// genre-name map is non-empty, no genre name is empty, and every profile with an
    /// entry has a version (as the store's operations and snapshots keep it).
    pub open spec fn is_canonical(self) -> bool {
        &&& forall|p: i32| #[trigger] self.disabled_genres.contains_key(p) ==> self.disabled_genres[p]
            != Set::<Seq<char>>::empty() && self.versions.contains_key(p)
        &&& forall|p: i32| #[trigger] self.disabled_channels.contains_key(p) ==> self.disabled_channels[p]
            != Set::<Seq<char>>::empty() && self.versions.contains_key(p)
        &&& forall|p: i32| #[trigger] self.enabled_channels.contains_key(p) ==> self.enabled_channels[p]
            != Set::<Seq<char>>::empty() && self.versions.contains_key(p)
        &&& forall|p: i32| #[trigger] self.rename_prefix.contains_key(p) ==> self.rename_prefix[p].len() > 0
            && self.versions.contains_key(p)
        &&& forall|p: i32| #[trigger] self.rename_suffix.contains_key(p) ==> self.rename_suffix[p].len() > 0
            && self.versions.contains_key(p)
        &&& forall|p: i32| #[trigger] self.genre_renames.contains_key(p) ==> self.genre_renames[p]
            != Map::<Seq<char>, Seq<char>>::empty() && self.versions.contains_key(p)
        &&& self.no_empty_genre_names()
    }
}

proof fn lemma_loaded_canonical(snap: Seq<(i32, SyncFilterState)>)
    ensures
        loaded(snap).is_canonical(),
        loaded(snap).versions.dom() == snapshot_ids(snap).to_set(),
    decreases snap.len(),
{
    if snap.len() == 0 {
        assert(snapshot_ids(snap).to_set() =~= Set::<i32>::empty());
        assert(loaded(snap).versions.dom() =~= Set::<i32>::empty());
    } else {
        let prev = snap.drop_last();
        lemma_loaded_canonical(prev);
        let m = loaded(prev);
        let (pid, st) = snap.last();
        let r = loaded(snap);
        assert(r == load_entry(m, pid, st));
        assert(snapshot_ids(snap) =~= snapshot_ids(prev).push(pid));
        assert(snapshot_ids(snap).to_set() =~= snapshot_ids(prev).to_set().insert(pid)) by {
            assert forall|x: i32| snapshot_ids(snap).to_set().contains(x) <==> snapshot_ids(prev).to_set().insert(pid).contains(x) by {
                if snapshot_ids(snap).to_set().contains(x) {
                    let k = choose|k: int| 0 <= k < snapshot_ids(snap).len() && snapshot_ids(snap)[k] == x;
                    if k < prev.len() {
                        assert(snapshot_ids(prev)[k] == x);
                    }
                }
                if snapshot_ids(prev).to_set().contains(x) {
                    let k = choose|k: int| 0 <= k < snapshot_ids(prev).len() && snapshot_ids(prev)[k] == x;
                    assert(snapshot_ids(snap)[k] == x);
                }
                if x == pid {
                    assert(snapshot_ids(snap)[snap.len() - 1] == x);
                }
            }
        }
        assert(r.versions.dom() =~= m.versions.dom().insert(pid));
        assert forall|p: i32, g: Seq<char>|
            #![trigger r.genre_renames[p][g]]
            r.genre_renames.contains_key(p) && r.genre_renames[p].contains_key(g) implies r.genre_renames[p][g].len() > 0 by {
            if p != pid || st.renames() == Map::<Seq<char>, Seq<char>>::empty() {
                assert(m.genre_renames[p][g].len() > 0);
            }
        }
    }
}

/// Saving a store as a snapshot and loading it back gives the whole store back, every
/// rule set, name and version, provided the store holds no empty entries (see
/// `is_canonical`), as the store's own operations leave it.
pub proof fn law_whole_snapshot_roundtrip(m: FilterModel, snap: Seq<(i32, SyncFilterState)>)
    requires
        m.is_snapshot(snap),
        m.is_canonical(),
    ensures
        loaded(snap) == m,
{
    lemma_loaded_canonical(snap);
    let l = loaded(snap);
    assert forall|p: i32| #[trigger] l.same_rules(m, p) by {
        law_snapshot_roundtrip(m, snap, p);
    }
    assert forall|p: i32| l.disabled_genres.contains_key(p) <==> #[trigger] m.disabled_genres.contains_key(p) by {
        assert(l.same_rules(m, p));
    }
    assert(l.disabled_genres =~= m.disabled_genres) by {
        assert forall|p: i32| #[trigger] l.disabled_genres.contains_key(p) implies l.disabled_genres[p] == m.disabled_genres[p] by {
            assert(l.same_rules(m, p));
        }
    }
    assert forall|p: i32| l.disabled_channels.contains_key(p) <==> #[trigger] m.disabled_channels.contains_key(p) by {
        assert(l.same_rules(m, p));
    }
    assert(l.disabled_channels =~= m.disabled_channels) by {
        assert forall|p: i32| #[trigger] l.disabled_channels.contains_key(p) implies l.disabled_channels[p] == m.disabled_channels[p] by {
            assert(l.same_rules(m, p));
        }
    }
    assert forall|p: i32| l.enabled_channels.contains_key(p) <==> #[trigger] m.enabled_channels.contains_key(p) by {
        assert(l.same_rules(m, p));
    }
    assert(l.enabled_channels =~= m.enabled_channels) by {
        assert forall|p: i32| #[trigger] l.enabled_channels.contains_key(p) implies l.enabled_channels[p] == m.enabled_channels[p] by {
            assert(l.same_rules(m, p));
        }
    }
    assert forall|p: i32| l.rename_prefix.contains_key(p) <==> #[trigger] m.rename_prefix.contains_key(p) by {
        assert(l.same_rules(m, p));
    }
    assert(l.rename_prefix =~= m.rename_prefix) by {
        assert forall|p: i32| #[trigger] l.rename_prefix.contains_key(p) implies l.rename_prefix[p] == m.rename_prefix[p] by {
            assert(l.same_rules(m, p));
        }
    }
    assert forall|p: i32| l.rename_suffix.contains_key(p) <==> #[trigger] m.rename_suffix.contains_key(p) by {
        assert(l.same_rules(m, p));
    }
    assert(l.rename_suffix =~= m.rename_suffix) by {
        assert forall|p: i32| #[trigger] l.rename_suffix.contains_key(p) implies l.rename_suffix[p] == m.rename_suffix[p] by {
            assert(l.same_rules(m, p));
        }
    }
    assert forall|p: i32| l.genre_renames.contains_key(p) <==> #[trigger] m.genre_renames.contains_key(p) by {
        assert(l.same_rules(m, p));
    }
    assert(l.genre_renames =~= m.genre_renames) by {
        assert forall|p: i32| #[trigger] l.genre_renames.contains_key(p) implies l.genre_renames[p] == m.genre_renames[p] by {
            assert(l.same_rules(m, p));
        }
    }
    assert(m.profile_ids() =~= m.versions.dom());
    assert(l.versions =~= m.versions) by {
        assert forall|p: i32| #[trigger] l.versions.contains_key(p) implies l.versions[p] == m.versions[p] by {
            assert(l.same_rules(m, p));
        }
    }
}

/// Loading the snapshot of a store gives every profile back the rules it had: the same
/// disabled genres, blocked and allowed channels, prefix, suffix, genre names and
/// version, provided no genre name of the store is empty.
pub proof fn law_snapshot_roundtrip(m: FilterModel, snap: Seq<(i32, SyncFilterState)>, pid: i32)
    requires
        m.is_snapshot(snap),
        m.no_empty_genre_names(),
    ensures
        loaded(snap).same_rules(m, pid),
        forall|cmd: Seq<char>, genre_id: Seq<char>|
            #[trigger] loaded(snap).is_channel_allowed(pid, cmd, genre_id) == m.is_channel_allowed(pid, cmd, genre_id),
        forall|genre_id: Seq<char>|
            #[trigger] loaded(snap).is_genre_disabled(pid, genre_id) == m.is_genre_disabled(pid, genre_id),
        forall|title: Seq<char>| #[trigger] loaded(snap).apply_rename(pid, title) == m.apply_rename(pid, title),
        forall|genre_id: Seq<char>, name: Seq<char>|
            #[trigger] loaded(snap).apply_genre_rename(pid, genre_id, name) == m.apply_genre_rename(pid, genre_id, name),
        loaded(snap).has_filters(pid) == m.has_filters(pid),
{
    assert(snapshot_ids(snap) =~= snap.map_values(|e: (i32, SyncFilterState)| e.0));
    lemma_loaded_profile(snap, pid);
    if exists|i: int| 0 <= i < snap.len() && snap[i].0 == pid {
        let i = choose|i: int| 0 <= i < snap.len() && snap[i].0 == pid;
        let st = snap[i].1;
        assert(m.describes(pid, st));
        let e = load_entry(FilterModel::empty(), pid, st);
        assert(e.disabled_genres_of(pid) == m.disabled_genres_of(pid));
        assert(e.disabled_channels_of(pid) == m.disabled_channels_of(pid));
        assert(e.enabled_channels_of(pid) == m.enabled_channels_of(pid));
        assert(e.prefix_of(pid) == m.prefix_of(pid));
        assert(e.suffix_of(pid) == m.suffix_of(pid));
        assert(non_empty_values(m.genre_renames_of(pid)) =~= m.genre_renames_of(pid));
        assert(e.genre_renames_of(pid) == m.genre_renames_of(pid));
    } else {
        assert(!m.profile_ids().contains(pid)) by {
            if m.profile_ids().contains(pid) {
                assert(snapshot_ids(snap).to_set().contains(pid));
                let k = choose|k: int| 0 <= k < snapshot_ids(snap).len() && snapshot_ids(snap)[k] == pid;
                assert(snap[k].0 == pid);
            }
        }
        assert(m.disabled_genres_of(pid) == Set::<Seq<char>>::empty());
        assert(m.genre_renames_of(pid) == Map::<Seq<char>, Seq<char>>::empty());
    }
}

} // verus!

verus! {

/// The value of `key` in a request given as key/value pairs (the last pair wins).
pub open spec fn req_get(req: Seq<(String, String)>, key: Seq<char>) -> Option<Seq<char>> {
    let m = str_pairs(req);
    if m.contains_key(key) {
        Some(m[key])
    } else {
        None
    }
}

/// The value of `key` if it is present and not empty.
pub open spec fn req_get_non_empty(req: Seq<(String, String)>, key: Seq<char>) -> Option<Seq<char>> {
    match req_get(req, key) {
        Some(v) => if v.len() > 0 {
            Some(v)
        } else {
            None
        },
        None => None,
    }
}

/// The profile id of a filter request: `profile_id` parsed as an `i32`, else 0.
pub open spec fn req_profile_id(req: Seq<(String, String)>) -> i32 {
    match req_get(req, "profile_id"@) {
        Some(s) => match parse_i32(s) {
            Some(v) => v,
            None => 0,
        },
        None => 0,
    }
}

/// Whether a toggle disables: `disabled` is `"1"`, or absent.
pub open spec fn req_disabled(req: Seq<(String, String)>) -> bool {
    match req_get(req, "disabled"@) {
        Some(s) => s == "1"@,
        None => true,
    }
}

/// The rules after a filter request, or `None` when its action is unknown.
pub open spec fn filter_action(m: FilterModel, req: Seq<(String, String)>) -> Option<FilterModel> {
    let pid = req_profile_id(req);
    let action = match req_get(req, "action"@) {
        Some(a) => a,
        None => Seq::empty(),
    };
    if action == "toggle_genre"@ {
        Some(
            match req_get_non_empty(req, "genre_id"@) {
                Some(g) => m.with_genre_disabled(pid, g, req_disabled(req)),
                None => m,
            },
        )
    } else if action == "toggle_channel"@ {
        Some(
            match req_get_non_empty(req, "cmd"@) {
                Some(c) => m.with_channel_disabled(pid, c, req_disabled(req)),
                None => m,
            },
        )
    } else if action == "reset"@ {
        Some(m.with_profile_reset(pid))
    } else if action == "rename"@ {
        let p = match req_get(req, "rename_prefix"@) {
            Some(v) => v,
            None => Seq::empty(),
        };
        let q = match req_get(req, "rename_suffix"@) {
            Some(v) => v,
            None => Seq::empty(),
        };
        Some(m.with_rename(pid, p, q))
    } else if action == "rename_genre"@ {
        Some(
            match (req_get_non_empty(req, "genre_rename_id"@), req_get_non_empty(req, "genre_rename_name"@)) {
                (Some(g), Some(n)) => m.with_genre_rename(pid, g, n),
                _ => m,
            },
        )
    } else {
        None
    }
}

fn lookup(req: &Vec<(String, String)>, key: &str) -> (r: Option<String>)
    ensures
        match r {
            Some(v) => req_get(req@, key@) == Some(v@),
            None => req_get(req@, key@) is None,
        },
{
    let k = string_from_chars(chars_of(key));
    pairs_get(req, &k)
}

fn lookup_non_empty(req: &Vec<(String, String)>, key: &str) -> (r: Option<String>)
    ensures
        match r {
            Some(v) => req_get_non_empty(req@, key@) == Some(v@),
            None => req_get_non_empty(req@, key@) is None,
        },
{
    match lookup(req, key) {
        Some(v) => if chars_of(v.as_str()).len() > 0 {
            Some(v)
        } else {
            None
        },
        None => None,
    }
}

/// The profile id a filter request names (see `req_profile_id`).
pub fn request_profile_id(req: &Vec<(String, String)>) -> (r: i32)
    ensures
        r == req_profile_id(req@),
{
    match lookup(req, "profile_id") {
        Some(s) => match parse_i32_str(s.as_str()) {
            Some(v) => v,
            None => 0,
        },
        None => 0,
    }
}

fn request_disabled(req: &Vec<(String, String)>) -> (r: bool)
    ensures
        r == req_disabled(req@),
{
    match lookup(req, "disabled") {
        Some(s) => str_eq(s.as_str(), "1"),
        None => true,
    }
}

/// Applies a filter request (`action` with its parameters); returns `false`, changing
/// nothing, when the action is unknown.
pub fn apply_filter_action(filters: &mut FilterStore, req: &Vec<(String, String)>) -> (known: bool)
    requires
        old(filters).version_of(req_profile_id(req@)) < u64::MAX,
    ensures
        match filter_action(old(filters).model(), req@) {
            Some(m) => known && final(filters).model() == m,
            None => !known && final(filters).model() == old(filters).model(),
        },
{
    let pid = request_profile_id(req);
    let action = match lookup(req, "action") {
        Some(a) => a,
        None => String::new(),
    };
    let a = action.as_str();
    if str_eq(a, "toggle_genre") {
        match lookup_non_empty(req, "genre_id") {
            Some(g) => {
                let disabled = request_disabled(req);
                filters.set_genre_disabled(pid, g, disabled);
            },
            None => {},
        }
        true
    } else if str_eq(a, "toggle_channel") {
        match lookup_non_empty(req, "cmd") {
            Some(c) => {
                let disabled = request_disabled(req);
                filters.set_channel_disabled(pid, c, disabled);
            },
            None => {},
        }
        true
    } else if str_eq(a, "reset") {
        filters.reset_profile(pid);
        true
    } else if str_eq(a, "rename") {
        let p = match lookup(req, "rename_prefix") {
            Some(v) => v,
            None => String::new(),
        };
        let q = match lookup(req, "rename_suffix") {
            Some(v) => v,
            None => String::new(),
        };
        filters.set_rename(pid, p, q);
        true
    } else if str_eq(a, "rename_genre") {
        let g = lookup_non_empty(req, "genre_rename_id");
        let n = lookup_non_empty(req, "genre_rename_name");
        match (g, n) {
            (Some(g), Some(n)) => {
                filters.set_genre_rename(pid, g, n);
            },
            _ => {},
        }
        true
    } else {
        false
    }
}

/// Applies a filter request; an unknown action changes nothing.
pub fn apply_filter_action_mut(filters: &mut FilterStore, req: &Vec<(String, String)>)
    requires
        old(filters).version_of(req_profile_id(req@)) < u64::MAX,
    ensures
        final(filters).model() == match filter_action(old(filters).model(), req@) {
            Some(m) => m,
            None => old(filters).model(),
        },
{
    let _ = apply_filter_action(filters, req);
}

} // verus!

//! Per-profile channel and genre filters, renaming rules and their snapshots.
use std::collections::HashMap;
use vstd::prelude::*;
use vstd::std_specs::iter::IteratorSpec;
use crate::api::{SyncFilterState, loaded, load_entry};
use crate::text::{starts_with, ends_with, trim, chars_of, string_from_chars, starts_with_vec, ends_with_vec, slice_vec, trim_vec};

verus! {

broadcast use vstd::std_specs::hash::group_hash_axioms;

// ---------------------------------------------------------------------------
// Models of the small string collections
// ---------------------------------------------------------------------------

/// The set of strings held by a vector (order and repetition do not matter).
pub open spec fn str_set(v: Seq<String>) -> Set<Seq<char>> {
    Set::new(|x: Seq<char>| exists|i: int| 0 <= i < v.len() && #[trigger] v[i]@ == x)
}

/// Whether no two strings of a vector are equal (it holds a set).
pub open spec fn distinct_strs(v: Seq<String>) -> bool {
    forall|i: int, j: int| #![trigger v[i], v[j]] 0 <= i < j < v.len() ==> v[i]@ != v[j]@
}

/// Whether no two pairs of a list have the same key (it holds a map).
pub open spec fn distinct_keys(v: Seq<(String, String)>) -> bool {
    forall|i: int, j: int| #![trigger v[i], v[j]] 0 <= i < j < v.len() ==> v[i].0@ != v[j].0@
}

/// The map described by a list of key/value pairs; a later pair overrides an earlier
/// one with the same key, as when such a list is collected into a map.
pub open spec fn str_pairs(v: Seq<(String, String)>) -> Map<Seq<char>, Seq<char>>
    decreases v.len(),
{
    if v.len() == 0 {
        Map::empty()
    } else {
        str_pairs(v.drop_last()).insert(v.last().0@, v.last().1@)
    }
}

/// The map described by a list of key/flag pairs (later pairs override earlier ones).
pub open spec fn flag_pairs(v: Seq<(String, bool)>) -> Map<Seq<char>, bool>
    decreases v.len(),
{
    if v.len() == 0 {
        Map::empty()
    } else {
        flag_pairs(v.drop_last()).insert(v.last().0@, v.last().1)
    }
}

/// The keys whose flag is `true`.
pub open spec fn true_keys(m: Map<Seq<char>, bool>) -> Set<Seq<char>> {
    Set::new(|k: Seq<char>| m.contains_key(k) && m[k])
}

/// The entries whose value is not empty.
pub open spec fn non_empty_values(m: Map<Seq<char>, Seq<char>>) -> Map<Seq<char>, Seq<char>> {
    m.restrict(Set::new(|k: Seq<char>| m.contains_key(k) && m[k].len() > 0))
}

pub open spec fn sets_view(m: Map<i32, Vec<String>>) -> Map<i32, Set<Seq<char>>> {
    m.map_values(|v: Vec<String>| str_set(v@))
}

pub open spec fn strs_view(m: Map<i32, String>) -> Map<i32, Seq<char>> {
    m.map_values(|s: String| s@)
}

pub open spec fn renames_view(m: Map<i32, Vec<(String, String)>>) -> Map<
    i32,
    Map<Seq<char>, Seq<char>>,
> {
    m.map_values(|v: Vec<(String, String)>| str_pairs(v@))
}

/// The value at `k`, or the empty set.
pub open spec fn set_or_empty(m: Map<i32, Set<Seq<char>>>, k: i32) -> Set<Seq<char>> {
    if m.contains_key(k) {
        m[k]
    } else {
        Set::empty()
    }
}

/// The value at `k`, or the empty string.
pub open spec fn str_or_empty(m: Map<i32, Seq<char>>, k: i32) -> Seq<char> {
    if m.contains_key(k) {
        m[k]
    } else {
        Seq::empty()
    }
}

/// The value at `k`, or the empty map.
pub open spec fn map_or_empty(m: Map<i32, Map<Seq<char>, Seq<char>>>, k: i32) -> Map<
    Seq<char>,
    Seq<char>,
> {
    if m.contains_key(k) {
        m[k]
    } else {
        Map::empty()
    }
}

// ---------------------------------------------------------------------------
// Operations on the small collections
// ---------------------------------------------------------------------------

pub fn set_contains(v: &Vec<String>, key: &String) -> (r: bool)
    ensures
        r == str_set(v@).contains(key@),
{
    let mut i: usize = 0;
    while i < v.len()
        invariant
            i <= v.len(),
            forall|j: int| 0 <= j < i ==> v@[j]@ != key@,
        decreases v.len() - i,
    {
        if v[i] == *key {
            assert(str_set(v@).contains(key@)) by {
                assert(v@[i as int]@ == key@);
            }
            return true;
        }
        i += 1;
    }
    false
}

pub fn set_insert(v: &mut Vec<String>, key: String)
    ensures
        str_set(final(v)@) == str_set(old(v)@).insert(key@),
        distinct_strs(old(v)@) ==> distinct_strs(final(v)@),
{
    if !set_contains(v, &key) {
        let ghost k = key@;
        proof {
            assert forall|j: int| 0 <= j < v@.len() implies #[trigger] v@[j]@ != k by {
                if v@[j]@ == k {
                    assert(str_set(v@).contains(k));
                }
            }
        }
        v.push(key);
        proof {
            assert forall|x: Seq<char>| #[trigger] str_set(v@).contains(x) == str_set(old(v)@).insert(
                k,
            ).contains(x) by {
                if str_set(old(v)@).contains(x) {
                    let i = choose|i: int| 0 <= i < old(v)@.len() && #[trigger] old(v)@[i]@ == x;
                    assert(v@[i]@ == x);
                }
                if x == k {
                    assert(v@[old(v)@.len() as int]@ == x);
                }
                if str_set(v@).contains(x) {
                    let i = choose|i: int| 0 <= i < v@.len() && #[trigger] v@[i]@ == x;
                    if i < old(v)@.len() {
                        assert(old(v)@[i]@ == x);
                    }
                }
            }
            assert(str_set(v@) =~= str_set(old(v)@).insert(k));
        }
    } else {
        assert(str_set(v@) =~= str_set(old(v)@).insert(key@));
    }
}

pub fn set_remove(v: &mut Vec<String>, key: &String)
    ensures
        str_set(final(v)@) == str_set(old(v)@).remove(key@),
        distinct_strs(old(v)@) ==> distinct_strs(final(v)@),
{
    let mut out: Vec<String> = Vec::new();
    let mut i: usize = 0;
    let ghost mut idx: Seq<int> = Seq::empty();
    while i < v.len()
        invariant
            i <= v.len(),
            str_set(out@) == str_set(v@.take(i as int)).remove(key@),
            idx.len() == out@.len(),
            forall|k: int| 0 <= k < idx.len() ==> 0 <= #[trigger] idx[k] < i && out@[k]@ == v@[idx[k]]@,
            forall|a: int, b: int| #![trigger idx[a], idx[b]] 0 <= a < b < idx.len() ==> idx[a] < idx[b],
        decreases v.len() - i,
    {
        let ghost prev = out@;
        proof {
            assert forall|x: Seq<char>| #[trigger] str_set(v@.take(i + 1)).contains(x) == str_set(
                v@.take(i as int),
            ).insert(v@[i as int]@).contains(x) by {
                if str_set(v@.take(i + 1)).contains(x) {
                    let j = choose|j: int| 0 <= j < i + 1 && #[trigger] v@.take(i + 1)[j]@ == x;
                    if j < i {
                        assert(v@.take(i as int)[j]@ == x);
                    }
                }
                if str_set(v@.take(i as int)).contains(x) {
                    let j = choose|j: int| 0 <= j < i && #[trigger] v@.take(i as int)[j]@ == x;
                    assert(v@.take(i + 1)[j]@ == x);
                }
                if x == v@[i as int]@ {
                    assert(v@.take(i + 1)[i as int]@ == x);
                }
            }
        }
        if v[i] != *key {
            out.push(v[i].clone());
            proof {
                idx = idx.push(i as int);
                assert forall|x: Seq<char>| #[trigger] str_set(out@).contains(x) == str_set(
                    prev,
                ).insert(v@[i as int]@).contains(x) by {
                    if str_set(out@).contains(x) {
                        let j = choose|j: int| 0 <= j < out@.len() && #[trigger] out@[j]@ == x;
                        if j < prev.len() {
                            assert(prev[j]@ == x);
                        }
                    }
                    if str_set(prev).contains(x) {
                        let j = choose|j: int| 0 <= j < prev.len() && #[trigger] prev[j]@ == x;
                        assert(out@[j]@ == x);
                    }
                    if x == v@[i as int]@ {
                        assert(out@[prev.len() as int]@ == x);
                    }
                }
            }
        }
        i += 1;
        proof {
            assert(str_set(out@) =~= str_set(v@.take(i as int)).remove(key@));
        }
    }
    assert(v@.take(v.len() as int) =~= v@);
    proof {
        if distinct_strs(v@) {
            assert forall|a: int, b: int| #![trigger out@[a], out@[b]] 0 <= a < b < out@.len() implies out@[a]@ != out@[b]@ by {
                assert(idx[a] < idx[b]);
                assert(v@[idx[a]]@ != v@[idx[b]]@);
            }
        }
    }
    *v = out;
}

pub proof fn lemma_str_pairs_contains(v: Seq<(String, String)>, k: Seq<char>)
    ensures
        str_pairs(v).contains_key(k) <==> exists|i: int| 0 <= i < v.len() && #[trigger] v[i].0@ == k,
    decreases v.len(),
{
    if v.len() > 0 {
        lemma_str_pairs_contains(v.drop_last(), k);
        if exists|i: int| 0 <= i < v.len() && #[trigger] v[i].0@ == k {
            let i = choose|i: int| 0 <= i < v.len() && #[trigger] v[i].0@ == k;
            if i < v.len() - 1 {
                assert(v.drop_last()[i].0@ == k);
            }
        }
        if exists|i: int| 0 <= i < v.drop_last().len() && #[trigger] v.drop_last()[i].0@ == k {
            let i = choose|i: int| 0 <= i < v.drop_last().len() && #[trigger] v.drop_last()[i].0@ == k;
            assert(v[i].0@ == k);
        }
    }
}

/// The value of the last pair with key `key`.
pub fn pairs_get(v: &Vec<(String, String)>, key: &String) -> (r: Option<String>)
    ensures
        match r {
            Some(s) => str_pairs(v@).contains_key(key@) && str_pairs(v@)[key@] == s@,
            None => !str_pairs(v@).contains_key(key@),
        },
{
    let mut i: usize = v.len();
    assert(v@.take(v.len() as int) =~= v@);
    while i > 0
        invariant
            i <= v.len(),
            forall|j: int| i <= j < v.len() ==> v@[j].0@ != key@,
            str_pairs(v@).contains_key(key@) ==> str_pairs(v@.take(i as int)).contains_key(key@),
            str_pairs(v@.take(i as int)).contains_key(key@) ==> str_pairs(v@).contains_key(key@)
                && str_pairs(v@)[key@] == str_pairs(v@.take(i as int))[key@],
        decreases i,
    {
        assert(v@.take(i as int).drop_last() =~= v@.take(i - 1));
        if v[i - 1].0 == *key {
            return Some(v[i - 1].1.clone());
        }
        i -= 1;
    }
    None
}

pub proof fn lemma_str_pairs_push(v: Seq<(String, String)>, p: (String, String))
    ensures
        str_pairs(v.push(p)) == str_pairs(v).insert(p.0@, p.1@),
{
    assert(v.push(p).drop_last() =~= v);
}

/// Removes every pair with key `key`.
pub fn pairs_remove(v: &mut Vec<(String, String)>, key: &String)
    ensures
        str_pairs(final(v)@) == str_pairs(old(v)@).remove(key@),
        forall|j: int| 0 <= j < final(v)@.len() ==> #[trigger] final(v)@[j].0@ != key@,
        distinct_keys(old(v)@) ==> distinct_keys(final(v)@),
{
    let mut out: Vec<(String, String)> = Vec::new();
    let mut i: usize = 0;
    let ghost mut idx: Seq<int> = Seq::empty();
    while i < v.len()
        invariant
            i <= v.len(),
            str_pairs(out@) == str_pairs(v@.take(i as int)).remove(key@),
            forall|j: int| 0 <= j < out@.len() ==> #[trigger] out@[j].0@ != key@,
            idx.len() == out@.len(),
            forall|k: int| 0 <= k < idx.len() ==> 0 <= #[trigger] idx[k] < i && out@[k].0@ == v@[idx[k]].0@,
            forall|a: int, b: int| #![trigger idx[a], idx[b]] 0 <= a < b < idx.len() ==> idx[a] < idx[b],
        decreases v.len() - i,
    {
        assert(v@.take(i + 1).drop_last() =~= v@.take(i as int));
        if v[i].0 != *key {
            let p = (v[i].0.clone(), v[i].1.clone());
            proof {
                lemma_str_pairs_push(out@, p);
                idx = idx.push(i as int);
            }
            out.push(p);
            assert(str_pairs(out@) =~= str_pairs(v@.take(i + 1)).remove(key@));
        } else {
            assert(str_pairs(out@) =~= str_pairs(v@.take(i + 1)).remove(key@));
        }
        i += 1;
    }
    assert(v@.take(v.len() as int) =~= v@);
    proof {
        if distinct_keys(v@) {
            assert forall|a: int, b: int| #![trigger out@[a], out@[b]] 0 <= a < b < out@.len() implies out@[a].0@ != out@[b].0@ by {
                assert(idx[a] < idx[b]);
                assert(v@[idx[a]].0@ != v@[idx[b]].0@);
            }
        }
    }
    *v = out;
}

/// Sets the value for `key`.
pub fn pairs_insert(v: &mut Vec<(String, String)>, key: String, value: String)
    ensures
        str_pairs(final(v)@) == str_pairs(old(v)@).insert(key@, value@),
        distinct_keys(old(v)@) ==> distinct_keys(final(v)@),
{
    pairs_remove(v, &key);
    let ghost mid = v@;
    let p = (key, value);
    proof {
        lemma_str_pairs_push(mid, p);
    }
    v.push(p);
    assert(str_pairs(v@) =~= str_pairs(old(v)@).insert(p.0@, p.1@));
}

// ---------------------------------------------------------------------------
// The filter store
// ---------------------------------------------------------------------------

/// The abstract state of a `FilterStore`: every collection taken by its value.
#[verifier::ext_equal]
pub struct FilterModel {
    pub disabled_genres: Map<i32, Set<Seq<char>>>,
    pub disabled_channels: Map<i32, Set<Seq<char>>>,
    pub enabled_channels: Map<i32, Set<Seq<char>>>,
    pub rename_prefix: Map<i32, Seq<char>>,
    pub rename_suffix: Map<i32, Seq<char>>,
    pub genre_renames: Map<i32, Map<Seq<char>, Seq<char>>>,
    pub versions: Map<i32, u64>,
}

impl FilterModel {
    pub open spec fn empty() -> FilterModel {
        FilterModel {
            disabled_genres: Map::empty(),
            disabled_channels: Map::empty(),
            enabled_channels: Map::empty(),
            rename_prefix: Map::empty(),
            rename_suffix: Map::empty(),
            genre_renames: Map::empty(),
            versions: Map::empty(),
        }
    }

    /// The disabled genre ids of a profile.
    pub open spec fn disabled_genres_of(self, pid: i32) -> Set<Seq<char>> {
        set_or_empty(self.disabled_genres, pid)
    }

    /// The channel commands a profile blocks.
    pub open spec fn disabled_channels_of(self, pid: i32) -> Set<Seq<char>> {
        set_or_empty(self.disabled_channels, pid)
    }

    /// The channel commands a profile allows although their genre is disabled.
    pub open spec fn enabled_channels_of(self, pid: i32) -> Set<Seq<char>> {
        set_or_empty(self.enabled_channels, pid)
    }

    pub open spec fn prefix_of(self, pid: i32) -> Seq<char> {
        str_or_empty(self.rename_prefix, pid)
    }

    pub open spec fn suffix_of(self, pid: i32) -> Seq<char> {
        str_or_empty(self.rename_suffix, pid)
    }

    pub open spec fn genre_renames_of(self, pid: i32) -> Map<Seq<char>, Seq<char>> {
        map_or_empty(self.genre_renames, pid)
    }

    pub open spec fn version_of(self, pid: i32) -> u64 {
        if self.versions.contains_key(pid) {
            self.versions[pid]
        } else {
            0
        }
    }

    pub open spec fn is_genre_disabled(self, pid: i32, genre_id: Seq<char>) -> bool {
        self.disabled_genres_of(pid).contains(genre_id)
    }

    pub open spec fn is_channel_allowed(self, pid: i32, cmd: Seq<char>, genre_id: Seq<char>) -> bool {
        &&& !self.disabled_channels_of(pid).contains(cmd)
        &&& (genre_id.len() > 0 && self.disabled_genres_of(pid).contains(genre_id)) ==> self.enabled_channels_of(
            pid,
        ).contains(cmd)
    }

    pub open spec fn apply_rename(self, pid: i32, title: Seq<char>) -> Seq<char> {
        rename_title(self.prefix_of(pid), self.suffix_of(pid), title)
    }

    pub open spec fn apply_genre_rename(self, pid: i32, genre_id: Seq<char>, original: Seq<char>) -> Seq<char> {
        let m = self.genre_renames_of(pid);
        if m.contains_key(genre_id) && m[genre_id].len() > 0 {
            m[genre_id]
        } else {
            original
        }
    }

    pub open spec fn has_filters(self, pid: i32) -> bool {
        ||| self.disabled_genres_of(pid) != Set::<Seq<char>>::empty()
        ||| self.disabled_channels_of(pid) != Set::<Seq<char>>::empty()
        ||| self.enabled_channels_of(pid) != Set::<Seq<char>>::empty()
        ||| self.prefix_of(pid).len() > 0
        ||| self.suffix_of(pid).len() > 0
        ||| self.genre_renames_of(pid) != Map::<Seq<char>, Seq<char>>::empty()
    }

    /// Every profile id that has an entry in some collection.
    pub open spec fn profile_ids(self) -> Set<i32> {
        self.disabled_genres.dom() + self.disabled_channels.dom() + self.enabled_channels.dom()
            + self.rename_prefix.dom() + self.rename_suffix.dom() + self.genre_renames.dom()
            + self.versions.dom()
    }

    /// `st` describes exactly the rules of profile `pid`.
    pub open spec fn describes(self, pid: i32, st: SyncFilterState) -> bool {
        &&& true_keys(flag_pairs(st.disabled_genres@)) == self.disabled_genres_of(pid)
        &&& forall|j: int| 0 <= j < st.disabled_genres@.len() ==> #[trigger] st.disabled_genres@[j].1
        &&& true_keys(flag_pairs(st.disabled_channels@)) == self.disabled_channels_of(pid)
        &&& forall|j: int| 0 <= j < st.disabled_channels@.len() ==> #[trigger] st.disabled_channels@[j].1
        &&& true_keys(flag_pairs(st.enabled_channels@)) == self.enabled_channels_of(pid)
        &&& forall|j: int| 0 <= j < st.enabled_channels@.len() ==> #[trigger] st.enabled_channels@[j].1
        &&& st.rename_prefix@ == self.prefix_of(pid)
        &&& st.rename_suffix@ == self.suffix_of(pid)
        &&& str_pairs(st.genre_renames@) == self.genre_renames_of(pid)
        &&& st.version == self.version_of(pid)
    }

    /// `snap` lists every profile of the model once, each with exactly its rules.
    pub open spec fn is_snapshot(self, snap: Seq<(i32, SyncFilterState)>) -> bool {
        &&& snap.map_values(|e: (i32, SyncFilterState)| e.0).no_duplicates()
        &&& snap.map_values(|e: (i32, SyncFilterState)| e.0).to_set() == self.profile_ids()
        &&& forall|i: int| 0 <= i < snap.len() ==> self.describes(#[trigger] snap[i].0, snap[i].1)
    }

    /// The versions after one more change to profile `pid`.
    pub open spec fn bumped(self, pid: i32) -> Map<i32, u64> {
        self.versions.insert(pid, (self.version_of(pid) + 1) as u64)
    }

    pub open spec fn with_genre_disabled(self, pid: i32, genre_id: Seq<char>, disabled: bool) -> FilterModel {
        FilterModel {
            disabled_genres: self.disabled_genres.insert(
                pid,
                if disabled {
                    self.disabled_genres_of(pid).insert(genre_id)
                } else {
                    self.disabled_genres_of(pid).remove(genre_id)
                },
            ),
            disabled_channels: self.disabled_channels,
            enabled_channels: self.enabled_channels,
            rename_prefix: self.rename_prefix,
            rename_suffix: self.rename_suffix,
            genre_renames: self.genre_renames,
            versions: self.bumped(pid),
        }
    }

    pub open spec fn with_channel_disabled(self, pid: i32, cmd: Seq<char>, disabled: bool) -> FilterModel {
        FilterModel {
            disabled_genres: self.disabled_genres,
            disabled_channels: self.disabled_channels.insert(
                pid,
                if disabled {
                    self.disabled_channels_of(pid).insert(cmd)
                } else {
                    self.disabled_channels_of(pid).remove(cmd)
                },
            ),
            enabled_channels: self.enabled_channels.insert(
                pid,
                if disabled {
                    self.enabled_channels_of(pid).remove(cmd)
                } else {
                    self.enabled_channels_of(pid).insert(cmd)
                },
            ),
            rename_prefix: self.rename_prefix,
            rename_suffix: self.rename_suffix,
            genre_renames: self.genre_renames,
            versions: self.bumped(pid),
        }
    }

    pub open spec fn with_profile_reset(self, pid: i32) -> FilterModel {
        FilterModel {
            disabled_genres: self.disabled_genres.remove(pid),
            disabled_channels: self.disabled_channels.remove(pid),
            enabled_channels: self.enabled_channels.remove(pid),
            rename_prefix: self.rename_prefix,
            rename_suffix: self.rename_suffix,
            genre_renames: self.genre_renames.remove(pid),
            versions: self.bumped(pid),
        }
    }

    pub open spec fn with_rename(self, pid: i32, prefix: Seq<char>, suffix: Seq<char>) -> FilterModel {
        FilterModel {
            disabled_genres: self.disabled_genres,
            disabled_channels: self.disabled_channels,
            enabled_channels: self.enabled_channels,
            rename_prefix: if prefix.len() == 0 {
                self.rename_prefix.remove(pid)
            } else {
                self.rename_prefix.insert(pid, prefix)
            },
            rename_suffix: if suffix.len() == 0 {
                self.rename_suffix.remove(pid)
            } else {
                self.rename_suffix.insert(pid, suffix)
            },
            genre_renames: self.genre_renames,
            versions: self.bumped(pid),
        }
    }

    pub open spec fn with_genre_rename(self, pid: i32, genre_id: Seq<char>, name: Seq<char>) -> FilterModel {
        FilterModel {
            disabled_genres: self.disabled_genres,
            disabled_channels: self.disabled_channels,
            enabled_channels: self.enabled_channels,
            rename_prefix: self.rename_prefix,
            rename_suffix: self.rename_suffix,
            genre_renames: if name.len() > 0 {
                self.genre_renames.insert(pid, self.genre_renames_of(pid).insert(genre_id, name))
            } else if !self.genre_renames.contains_key(pid) {
                self.genre_renames
            } else if self.genre_renames_of(pid).remove(genre_id) == Map::<Seq<char>, Seq<char>>::empty() {
                self.genre_renames.remove(pid)
            } else {
                self.genre_renames.insert(pid, self.genre_renames_of(pid).remove(genre_id))
            },
            versions: self.bumped(pid),
        }
    }
}

/// Filtering and renaming rules, kept per profile id.
#[derive(Debug, Clone)]
pub struct FilterStore {
    pub disabled_genres: HashMap<i32, Vec<String>>,
    pub disabled_channels: HashMap<i32, Vec<String>>,
    pub enabled_channels: HashMap<i32, Vec<String>>,
    pub rename_prefix: HashMap<i32, String>,
    pub rename_suffix: HashMap<i32, String>,
    pub genre_renames: HashMap<i32, Vec<(String, String)>>,
    pub versions: HashMap<i32, u64>,
}

/// What `FilterStore::apply_rename` computes: strip the prefix if the title starts with
/// it, then the suffix if what is left ends with it, then trim whitespace.
pub open spec fn rename_title(prefix: Seq<char>, suffix: Seq<char>, title: Seq<char>) -> Seq<char> {
    let t1 = if prefix.len() > 0 && starts_with(title, prefix) {
        title.subrange(prefix.len() as int, title.len() as int)
    } else {
        title
    };
    let t2 = if suffix.len() > 0 && ends_with(t1, suffix) {
        t1.subrange(0, t1.len() - suffix.len())
    } else {
        t1
    };
    trim(t2)
}

impl FilterStore {
    pub open spec fn genres_view(self) -> Map<i32, Set<Seq<char>>> {
        sets_view(self.disabled_genres@)
    }

    pub open spec fn blocked_view(self) -> Map<i32, Set<Seq<char>>> {
        sets_view(self.disabled_channels@)
    }

    pub open spec fn allowed_view(self) -> Map<i32, Set<Seq<char>>> {
        sets_view(self.enabled_channels@)
    }

    pub open spec fn prefix_view(self) -> Map<i32, Seq<char>> {
        strs_view(self.rename_prefix@)
    }

    pub open spec fn suffix_view(self) -> Map<i32, Seq<char>> {
        strs_view(self.rename_suffix@)
    }

    pub open spec fn renames_view(self) -> Map<i32, Map<Seq<char>, Seq<char>>> {
        renames_view(self.genre_renames@)
    }

    /// Whether every stored set holds each string once and every stored genre-name list
    /// each genre once (as the sets and maps they stand for).
    pub open spec fn no_repeats(self) -> bool {
        &&& forall|p: i32| #[trigger] self.disabled_genres@.contains_key(p) ==> distinct_strs(self.disabled_genres@[p]@)
        &&& forall|p: i32| #[trigger] self.disabled_channels@.contains_key(p) ==> distinct_strs(self.disabled_channels@[p]@)
        &&& forall|p: i32| #[trigger] self.enabled_channels@.contains_key(p) ==> distinct_strs(self.enabled_channels@[p]@)
        &&& forall|p: i32| #[trigger] self.genre_renames@.contains_key(p) ==> distinct_keys(self.genre_renames@[p]@)
    }

    /// The abstract state.
    pub open spec fn model(self) -> FilterModel {
        FilterModel {
            disabled_genres: self.genres_view(),
            disabled_channels: self.blocked_view(),
            enabled_channels: self.allowed_view(),
            rename_prefix: self.prefix_view(),
            rename_suffix: self.suffix_view(),
            genre_renames: self.renames_view(),
            versions: self.versions@,
        }
    }

    pub open spec fn disabled_genres_of(self, pid: i32) -> Set<Seq<char>> {
        self.model().disabled_genres_of(pid)
    }

    pub open spec fn disabled_channels_of(self, pid: i32) -> Set<Seq<char>> {
        self.model().disabled_channels_of(pid)
    }

    pub open spec fn enabled_channels_of(self, pid: i32) -> Set<Seq<char>> {
        self.model().enabled_channels_of(pid)
    }

    pub open spec fn prefix_of(self, pid: i32) -> Seq<char> {
        self.model().prefix_of(pid)
    }

    pub open spec fn suffix_of(self, pid: i32) -> Seq<char> {
        self.model().suffix_of(pid)
    }

    pub open spec fn genre_renames_of(self, pid: i32) -> Map<Seq<char>, Seq<char>> {
        self.model().genre_renames_of(pid)
    }

    pub open spec fn version_of(self, pid: i32) -> u64 {
        self.model().version_of(pid)
    }

    /// The versions after one more change to profile `pid`.
    pub open spec fn bumped_versions(self, pid: i32) -> Map<i32, u64> {
        self.versions@.insert(pid, (self.version_of(pid) + 1) as u64)
    }

    pub open spec fn spec_is_genre_disabled(self, pid: i32, genre_id: Seq<char>) -> bool {
        self.model().is_genre_disabled(pid, genre_id)
    }

    pub open spec fn spec_is_channel_allowed(self, pid: i32, cmd: Seq<char>, genre_id: Seq<char>) -> bool {
        self.model().is_channel_allowed(pid, cmd, genre_id)
    }

    pub open spec fn spec_apply_rename(self, pid: i32, title: Seq<char>) -> Seq<char> {
        self.model().apply_rename(pid, title)
    }

    pub open spec fn spec_apply_genre_rename(self, pid: i32, genre_id: Seq<char>, original: Seq<char>) -> Seq<char> {
        self.model().apply_genre_rename(pid, genre_id, original)
    }

    pub open spec fn spec_has_filters(self, pid: i32) -> bool {
        self.model().has_filters(pid)
    }

    /// An empty store.
    pub fn new() -> (r: Self)
        ensures
            r.genres_view() == Map::<i32, Set<Seq<char>>>::empty(),
            r.blocked_view() == Map::<i32, Set<Seq<char>>>::empty(),
            r.allowed_view() == Map::<i32, Set<Seq<char>>>::empty(),
            r.prefix_view() == Map::<i32, Seq<char>>::empty(),
            r.suffix_view() == Map::<i32, Seq<char>>::empty(),
            r.renames_view() == Map::<i32, Map<Seq<char>, Seq<char>>>::empty(),
            r.versions@ == Map::<i32, u64>::empty(),
            r.no_repeats(),
    {
        let r = FilterStore {
            disabled_genres: HashMap::new(),
            disabled_channels: HashMap::new(),
            enabled_channels: HashMap::new(),
            rename_prefix: HashMap::new(),
            rename_suffix: HashMap::new(),
            genre_renames: HashMap::new(),
            versions: HashMap::new(),
        };
        assert(r.genres_view() =~= Map::<i32, Set<Seq<char>>>::empty());
        assert(r.blocked_view() =~= Map::<i32, Set<Seq<char>>>::empty());
        assert(r.allowed_view() =~= Map::<i32, Set<Seq<char>>>::empty());
        assert(r.prefix_view() =~= Map::<i32, Seq<char>>::empty());
        assert(r.suffix_view() =~= Map::<i32, Seq<char>>::empty());
        assert(r.renames_view() =~= Map::<i32, Map<Seq<char>, Seq<char>>>::empty());
        r
    }

    /// The title with this profile's prefix and suffix stripped, then trimmed.
    pub fn apply_rename(&self, profile_id: i32, title: &str) -> (r: String)
        ensures
            r@ == self.spec_apply_rename(profile_id, title@),
    {
        let t = chars_of(title);
        let t1 = match self.rename_prefix.get(&profile_id) {
            Some(prefix) => {
                let p = chars_of(prefix.as_str());
                if p.len() > 0 && starts_with_vec(&t, &p) {
                    slice_vec(&t, p.len(), t.len())
                } else {
                    t.clone()
                }
            },
            None => t.clone(),
        };
        let t2 = match self.rename_suffix.get(&profile_id) {
            Some(suffix) => {
                let q = chars_of(suffix.as_str());
                if q.len() > 0 && ends_with_vec(&t1, &q) {
                    slice_vec(&t1, 0, t1.len() - q.len())
                } else {
                    t1.clone()
                }
            },
            None => t1.clone(),
        };
        let r = trim_vec(&t2);
        string_from_chars(r)
    }

    /// The configured name of a genre, or `original_name` when none (or an empty one)
    /// is configured.
    pub fn apply_genre_rename(&self, profile_id: i32, genre_id: &str, original_name: &str) -> (r: String)
        ensures
            r@ == self.spec_apply_genre_rename(profile_id, genre_id@, original_name@),
    {
        let g = string_from_chars(chars_of(genre_id));
        match self.genre_renames.get(&profile_id) {
            Some(m) => match pairs_get(m, &g) {
                Some(name) => {
                    if chars_of(name.as_str()).len() > 0 {
                        return name;
                    }
                },
                None => {},
            },
            None => {},
        }
        string_from_chars(chars_of(original_name))
    }

    pub fn is_genre_disabled(&self, profile_id: i32, genre_id: &str) -> (r: bool)
        ensures
            r == self.spec_is_genre_disabled(profile_id, genre_id@),
    {
        let g = string_from_chars(chars_of(genre_id));
        match self.disabled_genres.get(&profile_id) {
            Some(v) => set_contains(v, &g),
            None => false,
        }
    }

    /// Whether a channel is shown: not blocked by command, and, when its genre is
    /// disabled, explicitly allowed by command.
    pub fn is_channel_allowed(&self, profile_id: i32, cmd: &str, genre_id: &str) -> (r: bool)
        ensures
            r == self.spec_is_channel_allowed(profile_id, cmd@, genre_id@),
    {
        let c = string_from_chars(chars_of(cmd));
        let cmd_blocked = match self.disabled_channels.get(&profile_id) {
            Some(v) => set_contains(v, &c),
            None => false,
        };
        if cmd_blocked {
            return false;
        }
        let g = chars_of(genre_id);
        let genre_blocked = if g.len() > 0 {
            self.is_genre_disabled(profile_id, genre_id)
        } else {
            false
        };
        if genre_blocked {
            return match self.enabled_channels.get(&profile_id) {
                Some(v) => set_contains(v, &c),
                None => false,
            };
        }
        true
    }

    /// Whether any rule is configured for the profile.
    pub fn has_filters(&self, profile_id: i32) -> (r: bool)
        ensures
            r == self.spec_has_filters(profile_id),
    {
        proof {
            lemma_set_or_empty_nonempty(self.disabled_genres@, profile_id);
            lemma_set_or_empty_nonempty(self.disabled_channels@, profile_id);
            lemma_set_or_empty_nonempty(self.enabled_channels@, profile_id);
            lemma_renames_nonempty(self.genre_renames@, profile_id);
        }
        let a = match self.disabled_genres.get(&profile_id) {
            Some(v) => v.len() > 0,
            None => false,
        };
        let b = match self.disabled_channels.get(&profile_id) {
            Some(v) => v.len() > 0,
            None => false,
        };
        let c = match self.enabled_channels.get(&profile_id) {
            Some(v) => v.len() > 0,
            None => false,
        };
        let d = match self.rename_prefix.get(&profile_id) {
            Some(s) => chars_of(s.as_str()).len() > 0,
            None => false,
        };
        let e = match self.rename_suffix.get(&profile_id) {
            Some(s) => chars_of(s.as_str()).len() > 0,
            None => false,
        };
        let f = match self.genre_renames.get(&profile_id) {
            Some(v) => v.len() > 0,
            None => false,
        };
        a || b || c || d || e || f
    }

    fn bump_version(&mut self, profile_id: i32)
        requires
            old(self).version_of(profile_id) < u64::MAX,
        ensures
            final(self).versions@ == old(self).bumped_versions(profile_id),
            final(self).disabled_genres == old(self).disabled_genres,
            final(self).disabled_channels == old(self).disabled_channels,
            final(self).enabled_channels == old(self).enabled_channels,
            final(self).rename_prefix == old(self).rename_prefix,
            final(self).rename_suffix == old(self).rename_suffix,
            final(self).genre_renames == old(self).genre_renames,
    {
        let v = match self.versions.get(&profile_id) {
            Some(v) => *v,
            None => 0,
        };
        self.versions.insert(profile_id, v + 1);
    }

    /// Disables (or re-enables) a genre for a profile.
    pub fn set_genre_disabled(&mut self, profile_id: i32, genre_id: String, disabled: bool)
        requires
            old(self).version_of(profile_id) < u64::MAX,
        ensures
            final(self).model() == old(self).model().with_genre_disabled(profile_id, genre_id@, disabled),
            old(self).no_repeats() ==> final(self).no_repeats(),
    {
        let ghost g = genre_id@;
        let mut v = take_set(&mut self.disabled_genres, profile_id);
        if disabled {
            set_insert(&mut v, genre_id);
        } else {
            set_remove(&mut v, &genre_id);
        }
        self.disabled_genres.insert(profile_id, v);
        proof {
            lemma_sets_view_put(old(self).disabled_genres@, profile_id, v@);
        }
        self.bump_version(profile_id);
    }

    /// Blocks a channel command (removing any explicit allowance), or allows it
    /// (removing any block).
    pub fn set_channel_disabled(&mut self, profile_id: i32, cmd: String, disabled: bool)
        requires
            old(self).version_of(profile_id) < u64::MAX,
        ensures
            final(self).model() == old(self).model().with_channel_disabled(profile_id, cmd@, disabled),
            old(self).no_repeats() ==> final(self).no_repeats(),
    {
        let mut blocked = take_set(&mut self.disabled_channels, profile_id);
        let mut enabled = take_set(&mut self.enabled_channels, profile_id);
        if disabled {
            set_insert(&mut blocked, cmd.clone());
            set_remove(&mut enabled, &cmd);
        } else {
            set_remove(&mut blocked, &cmd);
            set_insert(&mut enabled, cmd);
        }
        self.disabled_channels.insert(profile_id, blocked);
        self.enabled_channels.insert(profile_id, enabled);
        proof {
            lemma_sets_view_put(old(self).disabled_channels@, profile_id, blocked@);
            lemma_sets_view_put(old(self).enabled_channels@, profile_id, enabled@);
        }
        self.bump_version(profile_id);
    }

    /// Drops the genre, channel and genre-name rules of a profile (the prefix and
    /// suffix rules stay).
    pub fn reset_profile(&mut self, profile_id: i32)
        requires
            old(self).version_of(profile_id) < u64::MAX,
        ensures
            final(self).model() == old(self).model().with_profile_reset(profile_id),
            old(self).no_repeats() ==> final(self).no_repeats(),
    {
        self.disabled_genres.remove(&profile_id);
        self.disabled_channels.remove(&profile_id);
        self.enabled_channels.remove(&profile_id);
        self.genre_renames.remove(&profile_id);
        proof {
            assert(self.genres_view() =~= old(self).genres_view().remove(profile_id));
            assert(self.blocked_view() =~= old(self).blocked_view().remove(profile_id));
            assert(self.allowed_view() =~= old(self).allowed_view().remove(profile_id));
            assert(self.renames_view() =~= old(self).renames_view().remove(profile_id));
        }
        self.bump_version(profile_id);
    }

    /// Sets the prefix and suffix that titles are stripped of; an empty one removes
    /// the rule.
    pub fn set_rename(&mut self, profile_id: i32, prefix: String, suffix: String)
        requires
            old(self).version_of(profile_id) < u64::MAX,
        ensures
            final(self).model() == old(self).model().with_rename(profile_id, prefix@, suffix@),
            old(self).no_repeats() ==> final(self).no_repeats(),
    {
        let ghost pv = prefix@;
        let ghost sv = suffix@;
        if chars_of(prefix.as_str()).len() == 0 {
            self.rename_prefix.remove(&profile_id);
            assert(self.prefix_view() =~= old(self).prefix_view().remove(profile_id));
        } else {
            self.rename_prefix.insert(profile_id, prefix);
            assert(self.prefix_view() =~= old(self).prefix_view().insert(profile_id, pv));
        }
        if chars_of(suffix.as_str()).len() == 0 {
            self.rename_suffix.remove(&profile_id);
            assert(self.suffix_view() =~= old(self).suffix_view().remove(profile_id));
        } else {
            self.rename_suffix.insert(profile_id, suffix);
            assert(self.suffix_view() =~= old(self).suffix_view().insert(profile_id, sv));
        }
        self.bump_version(profile_id);
    }

    /// Sets the displayed name of a genre; an empty name removes it (and the
    /// profile's entry when no name is left).
    pub fn set_genre_rename(&mut self, profile_id: i32, genre_id: String, new_name: String)
        requires
            old(self).version_of(profile_id) < u64::MAX,
        ensures
            final(self).model() == old(self).model().with_genre_rename(profile_id, genre_id@, new_name@),
            old(self).no_repeats() ==> final(self).no_repeats(),
    {
        if chars_of(new_name.as_str()).len() == 0 {
            match self.genre_renames.remove(&profile_id) {
                Some(m) => {
                    let mut m = m;
                    pairs_remove(&mut m, &genre_id);
                    if m.len() == 0 {
                        proof {
                            assert(str_pairs(m@) =~= Map::<Seq<char>, Seq<char>>::empty());
                            assert(self.renames_view() =~= old(self).renames_view().remove(profile_id));
                        }
                    } else {
                        proof {
                            lemma_str_pairs_nonempty(m@);
                        }
                        self.genre_renames.insert(profile_id, m);
                        proof {
                            assert(self.renames_view() =~= old(self).renames_view().insert(
                                profile_id,
                                old(self).genre_renames_of(profile_id).remove(genre_id@),
                            ));
                        }
                    }
                },
                None => {
                    assert(self.renames_view() =~= old(self).renames_view());
                },
            }
        } else {
            let mut m = match self.genre_renames.remove(&profile_id) {
                Some(m) => m,
                None => {
                    let e: Vec<(String, String)> = Vec::new();
                    assert(str_pairs(e@) =~= Map::<Seq<char>, Seq<char>>::empty());
                    e
                },
            };
            assert(str_pairs(m@) == old(self).genre_renames_of(profile_id));
            pairs_insert(&mut m, genre_id, new_name);
            self.genre_renames.insert(profile_id, m);
            proof {
                assert(self.renames_view() =~= old(self).renames_view().insert(
                    profile_id,
                    old(self).genre_renames_of(profile_id).insert(genre_id@, new_name@),
                ));
            }
        }
        self.bump_version(profile_id);
    }

    /// Replaces every rule with those of a snapshot, one entry per profile (as the
    /// snapshot's map keys them), entries taken in order.
    pub fn load_snapshot(&mut self, snapshot: Vec<(i32, SyncFilterState)>)
        requires
            crate::api::snapshot_ids(snapshot@).no_duplicates(),
        ensures
            final(self).model() == loaded(snapshot@),
            final(self).no_repeats(),
    {
        self.disabled_genres.clear();
        self.disabled_channels.clear();
        self.enabled_channels.clear();
        self.rename_prefix.clear();
        self.rename_suffix.clear();
        self.genre_renames.clear();
        self.versions.clear();
        assert(self.model() =~= FilterModel::empty());
        assert(self.disabled_genres@ =~= Map::empty());
        assert(self.disabled_channels@ =~= Map::empty());
        assert(self.enabled_channels@ =~= Map::empty());
        assert(self.genre_renames@ =~= Map::empty());
        assert(snapshot@.take(0) =~= Seq::<(i32, SyncFilterState)>::empty());
        let mut i: usize = 0;
        while i < snapshot.len()
            invariant
                i <= snapshot.len(),
                self.model() == loaded(snapshot@.take(i as int)),
                self.no_repeats(),
            decreases snapshot.len() - i,
        {
            let ghost before = self.model();
            let pid = snapshot[i].0;
            let st = &snapshot[i].1;
            let dg = true_key_set(&st.disabled_genres);
            let dc = true_key_set(&st.disabled_channels);
            let ec = true_key_set(&st.enabled_channels);
            let gr = non_empty_pairs(&st.genre_renames);
            proof {
                lemma_str_set_nonempty(dg@);
                lemma_str_set_nonempty(dc@);
                lemma_str_set_nonempty(ec@);
                lemma_str_pairs_nonempty(gr@);
            }
            if dg.len() > 0 {
                self.disabled_genres.insert(pid, dg);
            }
            if dc.len() > 0 {
                self.disabled_channels.insert(pid, dc);
            }
            if ec.len() > 0 {
                self.enabled_channels.insert(pid, ec);
            }
            if chars_of(st.rename_prefix.as_str()).len() > 0 {
                self.rename_prefix.insert(pid, st.rename_prefix.clone());
            }
            if chars_of(st.rename_suffix.as_str()).len() > 0 {
                self.rename_suffix.insert(pid, st.rename_suffix.clone());
            }
            if gr.len() > 0 {
                self.genre_renames.insert(pid, gr);
            }
            self.versions.insert(pid, st.version);
            proof {
                assert(snapshot@.take(i + 1).drop_last() =~= snapshot@.take(i as int));
                assert(snapshot@.take(i + 1).last() == snapshot@[i as int]);
                assert(self.model() =~= load_entry(before, pid, *st));
            }
            i += 1;
        }
        assert(snapshot@.take(snapshot.len() as int) =~= snapshot@);
    }

    /// The state of one profile.
    pub fn profile_state(&self, profile_id: i32) -> (r: SyncFilterState)
        ensures
            self.model().describes(profile_id, r),
    {
        let empty: Vec<String> = Vec::new();
        assert(str_set(empty@) =~= Set::<Seq<char>>::empty());
        let dg = match self.disabled_genres.get(&profile_id) {
            Some(v) => flagged_true(v),
            None => flagged_true(&empty),
        };
        let dc = match self.disabled_channels.get(&profile_id) {
            Some(v) => flagged_true(v),
            None => flagged_true(&empty),
        };
        let ec = match self.enabled_channels.get(&profile_id) {
            Some(v) => flagged_true(v),
            None => flagged_true(&empty),
        };
        let prefix = match self.rename_prefix.get(&profile_id) {
            Some(p) => p.clone(),
            None => String::new(),
        };
        let suffix = match self.rename_suffix.get(&profile_id) {
            Some(p) => p.clone(),
            None => String::new(),
        };
        let gr = match self.genre_renames.get(&profile_id) {
            Some(v) => clone_pairs(v),
            None => {
                let e: Vec<(String, String)> = Vec::new();
                assert(str_pairs(e@) =~= Map::<Seq<char>, Seq<char>>::empty());
                e
            },
        };
        let version = match self.versions.get(&profile_id) {
            Some(v) => *v,
            None => 0,
        };
        SyncFilterState {
            disabled_genres: dg,
            disabled_channels: dc,
            enabled_channels: ec,
            rename_prefix: prefix,
            rename_suffix: suffix,
            genre_renames: gr,
            version,
        }
    }

    /// Every profile that has an entry in some collection, each with its rules.
    pub fn to_snapshot(&self) -> (r: Vec<(i32, SyncFilterState)>)
        ensures
            self.model().is_snapshot(r@),
    {
        let mut ids: Vec<i32> = Vec::new();
        collect_keys(&self.disabled_genres, &mut ids);
        collect_keys(&self.disabled_channels, &mut ids);
        collect_keys(&self.enabled_channels, &mut ids);
        collect_keys(&self.rename_prefix, &mut ids);
        collect_keys(&self.rename_suffix, &mut ids);
        collect_keys(&self.genre_renames, &mut ids);
        collect_keys(&self.versions, &mut ids);
        proof {
            assert(ids@.to_set() =~= self.model().profile_ids());
        }
        let mut out: Vec<(i32, SyncFilterState)> = Vec::new();
        let mut i: usize = 0;
        while i < ids.len()
            invariant
                i <= ids.len(),
                out@.len() == i,
                forall|j: int| 0 <= j < i ==> (#[trigger] out@[j]).0 == ids@[j],
                forall|j: int| 0 <= j < out@.len() ==> self.model().describes(#[trigger] out@[j].0, out@[j].1),
            decreases ids.len() - i,
        {
            let pid = ids[i];
            let st = self.profile_state(pid);
            out.push((pid, st));
            i += 1;
        }
        assert(out@.map_values(|e: (i32, SyncFilterState)| e.0) =~= ids@);
        out
    }
}

pub proof fn lemma_str_set_nonempty(v: Seq<String>)
    ensures
        (str_set(v) != Set::<Seq<char>>::empty()) <==> v.len() > 0,
{
    if v.len() > 0 {
        assert(str_set(v).contains(v[0]@));
    } else {
        assert(str_set(v) =~= Set::<Seq<char>>::empty());
    }
}

/// The keys whose (last) flag is `true`.
pub fn true_key_set(v: &Vec<(String, bool)>) -> (r: Vec<String>)
    ensures
        str_set(r@) == true_keys(flag_pairs(v@)),
        distinct_strs(r@),
{
    let mut out: Vec<String> = Vec::new();
    let mut i: usize = 0;
    assert(str_set(out@) =~= true_keys(flag_pairs(v@.take(0))));
    while i < v.len()
        invariant
            i <= v.len(),
            str_set(out@) == true_keys(flag_pairs(v@.take(i as int))),
            distinct_strs(out@),
        decreases v.len() - i,
    {
        assert(v@.take(i + 1).drop_last() =~= v@.take(i as int));
        let k = v[i].0.clone();
        if v[i].1 {
            set_insert(&mut out, k);
        } else {
            set_remove(&mut out, &k);
        }
        i += 1;
        assert(str_set(out@) =~= true_keys(flag_pairs(v@.take(i as int))));
    }
    assert(v@.take(v.len() as int) =~= v@);
    out
}

/// The pairs whose (last) value is not empty.
pub fn non_empty_pairs(v: &Vec<(String, String)>) -> (r: Vec<(String, String)>)
    ensures
        str_pairs(r@) == non_empty_values(str_pairs(v@)),
        distinct_keys(r@),
{
    let mut out: Vec<(String, String)> = Vec::new();
    let mut i: usize = 0;
    assert(str_pairs(out@) =~= non_empty_values(str_pairs(v@.take(0))));
    while i < v.len()
        invariant
            i <= v.len(),
            str_pairs(out@) == non_empty_values(str_pairs(v@.take(i as int))),
            distinct_keys(out@),
        decreases v.len() - i,
    {
        assert(v@.take(i + 1).drop_last() =~= v@.take(i as int));
        let k = v[i].0.clone();
        let val = v[i].1.clone();
        if chars_of(val.as_str()).len() > 0 {
            pairs_insert(&mut out, k, val);
        } else {
            pairs_remove(&mut out, &k);
        }
        i += 1;
        assert(str_pairs(out@) =~= non_empty_values(str_pairs(v@.take(i as int))));
    }
    assert(v@.take(v.len() as int) =~= v@);
    out
}

pub proof fn lemma_str_set_push(v: Seq<String>, x: String)
    ensures
        str_set(v.push(x)) == str_set(v).insert(x@),
{
    assert forall|y: Seq<char>| #[trigger] str_set(v.push(x)).contains(y) == str_set(v).insert(x@).contains(y) by {
        if str_set(v.push(x)).contains(y) {
            let i = choose|i: int| 0 <= i < v.push(x).len() && #[trigger] v.push(x)[i]@ == y;
            if i < v.len() {
                assert(v[i]@ == y);
            }
        }
        if str_set(v).contains(y) {
            let i = choose|i: int| 0 <= i < v.len() && #[trigger] v[i]@ == y;
            assert(v.push(x)[i]@ == y);
        }
        if y == x@ {
            assert(v.push(x)[v.len() as int]@ == y);
        }
    }
    assert(str_set(v.push(x)) =~= str_set(v).insert(x@));
}

/// Each string paired with the flag `true`.
pub fn flagged_true(v: &Vec<String>) -> (r: Vec<(String, bool)>)
    ensures
        true_keys(flag_pairs(r@)) == str_set(v@),
        forall|j: int| 0 <= j < r@.len() ==> #[trigger] r@[j].1,
{
    let mut out: Vec<(String, bool)> = Vec::new();
    let mut i: usize = 0;
    assert(true_keys(flag_pairs(out@)) =~= str_set(v@.take(0)));
    while i < v.len()
        invariant
            i <= v.len(),
            true_keys(flag_pairs(out@)) == str_set(v@.take(i as int)),
            forall|j: int| 0 <= j < out@.len() ==> #[trigger] out@[j].1,
        decreases v.len() - i,
    {
        let ghost prev = out@;
        let k = v[i].clone();
        out.push((k, true));
        proof {
            assert(out@.drop_last() =~= prev);
            assert(v@.take(i + 1) =~= v@.take(i as int).push(v@[i as int]));
            lemma_str_set_push(v@.take(i as int), v@[i as int]);
            assert(true_keys(flag_pairs(out@)) =~= str_set(v@.take(i + 1)));
        }
        i += 1;
    }
    assert(v@.take(v.len() as int) =~= v@);
    out
}

fn clone_pairs(v: &Vec<(String, String)>) -> (r: Vec<(String, String)>)
    ensures
        r@ == v@,
{
    let mut out: Vec<(String, String)> = Vec::new();
    let mut i: usize = 0;
    while i < v.len()
        invariant
            i <= v.len(),
            out@ == v@.take(i as int),
        decreases v.len() - i,
    {
        out.push((v[i].0.clone(), v[i].1.clone()));
        i += 1;
        assert(out@ =~= v@.take(i as int));
    }
    assert(v@.take(v.len() as int) =~= v@);
    out
}

/// Removes the vector stored for `k` (or gives an empty one).
fn take_set(m: &mut HashMap<i32, Vec<String>>, k: i32) -> (r: Vec<String>)
    ensures
        final(m)@ == old(m)@.remove(k),
        r@ == (if old(m)@.contains_key(k) {
            old(m)@[k]@
        } else {
            Seq::<String>::empty()
        }),
        str_set(r@) == set_or_empty(sets_view(old(m)@), k),
{
    match m.remove(&k) {
        Some(v) => v,
        None => {
            let v: Vec<String> = Vec::new();
            assert(str_set(v@) =~= Set::<Seq<char>>::empty());
            v
        },
    }
}

proof fn lemma_sets_view_put(m: Map<i32, Vec<String>>, k: i32, v: Seq<String>)
    ensures
        forall|vv: Vec<String>| vv@ == v ==> #[trigger] sets_view(m.remove(k).insert(k, vv)) == sets_view(m).insert(k, str_set(v)),
{
    assert forall|vv: Vec<String>| vv@ == v implies #[trigger] sets_view(m.remove(k).insert(k, vv)) == sets_view(m).insert(k, str_set(v)) by {
        assert(sets_view(m.remove(k).insert(k, vv)) =~= sets_view(m).insert(k, str_set(v)));
    }
}

proof fn lemma_set_or_empty_nonempty(m: Map<i32, Vec<String>>, k: i32)
    ensures
        (set_or_empty(sets_view(m), k) != Set::<Seq<char>>::empty()) <==> (m.contains_key(k) && m[k].len() > 0),
{
    if m.contains_key(k) {
        let v = m[k];
        if v.len() > 0 {
            assert(str_set(v@).contains(v@[0]@));
        } else {
            assert(str_set(v@) =~= Set::<Seq<char>>::empty());
        }
    }
}

proof fn lemma_str_pairs_nonempty(v: Seq<(String, String)>)
    ensures
        (str_pairs(v) != Map::<Seq<char>, Seq<char>>::empty()) <==> v.len() > 0,
{
    if v.len() > 0 {
        assert(str_pairs(v).contains_key(v.last().0@));
    }
}

proof fn lemma_renames_nonempty(m: Map<i32, Vec<(String, String)>>, k: i32)
    ensures
        (map_or_empty(renames_view(m), k) != Map::<Seq<char>, Seq<char>>::empty()) <==> (m.contains_key(k) && m[k].len() > 0),
{
    if m.contains_key(k) {
        lemma_str_pairs_nonempty(m[k]@);
    }
}

} // verus!
verus! {

/// Appends the keys of `m` that `acc` lacks.
fn collect_keys<V>(m: &HashMap<i32, V>, acc: &mut Vec<i32>)
    requires
        old(acc)@.no_duplicates(),
    ensures
        final(acc)@.no_duplicates(),
        final(acc)@.to_set() == old(acc)@.to_set() + m@.dom(),
{
    let ghost dom = m@.dom();
    let ghost start = acc@;
    let keys = m.keys();
    let ghost all = keys.remaining();
    assert(all.unref().to_set() == dom);
    let ghost mut n: int = 0;
    for k in it: keys
        invariant
            n == it.index(),
            it.seq() == all,
            acc@.no_duplicates(),
            forall|x: i32| #[trigger] acc@.contains(x) <==> (start.contains(x) || all.unref().take(n).contains(x)),
    {
        let ghost sq = all.unref();
        let kk = *k;
        let ghost idx = n;
        assert(sq[idx] == kk);
        let mut found = false;
        let mut j: usize = 0;
        while j < acc.len()
            invariant
                j <= acc.len(),
                found == (exists|t: int| 0 <= t < j && acc@[t] == kk),
            decreases acc.len() - j,
        {
            if acc[j] == kk {
                found = true;
            }
            j += 1;
        }
        let ghost prev = acc@;
        if !found {
            acc.push(kk);
            assert(acc@.no_duplicates()) by {
                assert forall|a: int, b: int| 0 <= a < acc@.len() && 0 <= b < acc@.len() && a != b implies acc@[a] != acc@[b] by {
                    if a < prev.len() && b < prev.len() {
                    } else if a == prev.len() {
                        assert(prev[b] == acc@[b]);
                        assert(!(prev[b] == kk));
                    } else {
                        assert(prev[a] == acc@[a]);
                        assert(!(prev[a] == kk));
                    }
                }
            }
        }
        proof {
            assert(sq.take(idx + 1) =~= sq.take(idx).push(kk));
            assert forall|x: i32| #[trigger] acc@.contains(x) <==> (start.contains(x) || sq.take(idx + 1).contains(x)) by {
                if x == kk {
                    assert(sq.take(idx + 1)[idx] == kk);
                    if found {
                        let t = choose|t: int| 0 <= t < prev.len() && prev[t] == kk;
                        assert(acc@[t] == kk);
                    } else {
                        assert(acc@[prev.len() as int] == kk);
                    }
                } else {
                    if acc@.contains(x) {
                        let t = choose|t: int| 0 <= t < acc@.len() && acc@[t] == x;
                        assert(prev[t] == x);
                        assert(prev.contains(x));
                        let t0 = sq.take(idx);
                        if t0.contains(x) {
                            let u = choose|u: int| 0 <= u < t0.len() && t0[u] == x;
                            assert(sq.take(idx + 1)[u] == x);
                        }
                    }
                    let t1 = sq.take(idx + 1);
                    if t1.contains(x) {
                        let u = choose|u: int| 0 <= u < t1.len() && t1[u] == x;
                        assert(sq.take(idx)[u] == x);
                    }
                    if prev.contains(x) {
                        let t = choose|t: int| 0 <= t < prev.len() && prev[t] == x;
                        assert(acc@[t] == x);
                    }
                }
            }
            n = n + 1;
        }
    }
    proof {
        let sq = all.unref();
        assert(n == all.len());
        assert(sq.take(n) =~= sq);
        assert forall|x: i32| #[trigger] acc@.to_set().contains(x) <==> (start.to_set() + dom).contains(x) by {
            assert(acc@.to_set().contains(x) <==> acc@.contains(x));
            assert(start.to_set().contains(x) <==> start.contains(x));
            assert(sq.to_set().contains(x) <==> sq.contains(x));
        }
        assert(acc@.to_set() =~= start.to_set() + dom);
    }
}
}

verus! {

/// A blocked channel command is hidden whatever its genre.
pub proof fn law_blocked_channel_is_hidden(m: FilterModel, pid: i32, cmd: Seq<char>, genre_id: Seq<char>)
    ensures
        !m.with_channel_disabled(pid, cmd, true).is_channel_allowed(pid, cmd, genre_id),
{
}

/// A channel command that was allowed again is shown whatever its genre.
pub proof fn law_allowed_channel_is_shown(m: FilterModel, pid: i32, cmd: Seq<char>, genre_id: Seq<char>)
    ensures
        m.with_channel_disabled(pid, cmd, false).is_channel_allowed(pid, cmd, genre_id),
{
}

/// Disabling a genre disables it and hides its channels unless they are explicitly
/// allowed; enabling it again makes it not disabled.
pub proof fn law_genre_toggle(m: FilterModel, pid: i32, genre_id: Seq<char>, cmd: Seq<char>)
    ensures
        m.with_genre_disabled(pid, genre_id, true).is_genre_disabled(pid, genre_id),
        !m.with_genre_disabled(pid, genre_id, false).is_genre_disabled(pid, genre_id),
        genre_id.len() > 0 ==> (m.with_genre_disabled(pid, genre_id, true).is_channel_allowed(pid, cmd, genre_id) <==> (
            !m.disabled_channels_of(pid).contains(cmd) && m.enabled_channels_of(pid).contains(cmd))),
{
}

/// After a reset every channel of the profile is shown, no genre is disabled or
/// renamed, and only a prefix or suffix rule can remain.
pub proof fn law_reset_clears_rules(m: FilterModel, pid: i32, cmd: Seq<char>, genre_id: Seq<char>, name: Seq<char>)
    ensures
        m.with_profile_reset(pid).is_channel_allowed(pid, cmd, genre_id),
        !m.with_profile_reset(pid).is_genre_disabled(pid, genre_id),
        m.with_profile_reset(pid).apply_genre_rename(pid, genre_id, name) == name,
        m.with_profile_reset(pid).has_filters(pid) == (m.prefix_of(pid).len() > 0 || m.suffix_of(pid).len() > 0),
{
    let r = m.with_profile_reset(pid);
    assert(r.disabled_genres_of(pid) == Set::<Seq<char>>::empty());
    assert(r.genre_renames_of(pid) == Map::<Seq<char>, Seq<char>>::empty());
}

/// A genre renamed to a non-empty name shows that name; renaming it to the empty name
/// shows the original name again.
pub proof fn law_genre_rename(m: FilterModel, pid: i32, genre_id: Seq<char>, name: Seq<char>, original: Seq<char>)
    ensures
        m.with_genre_rename(pid, genre_id, name).apply_genre_rename(pid, genre_id, original) == if name.len() > 0 {
            name
        } else {
            original
        },
{
    let r = m.with_genre_rename(pid, genre_id, name);
    if name.len() == 0 && m.genre_renames.contains_key(pid) {
        if m.genre_renames_of(pid).remove(genre_id) == Map::<Seq<char>, Seq<char>>::empty() {
            assert(r.genre_renames_of(pid) == Map::<Seq<char>, Seq<char>>::empty());
        }
    }
}

/// After setting a prefix and suffix, titles are renamed with exactly those.
pub proof fn law_rename_uses_new_rule(m: FilterModel, pid: i32, prefix: Seq<char>, suffix: Seq<char>, title: Seq<char>)
    ensures
        m.with_rename(pid, prefix, suffix).apply_rename(pid, title) == rename_title(prefix, suffix, title),
{
}

/// The prefix and suffix of a profile are stripped independently: a title that starts
/// with the (non-empty) prefix loses it, a title that ends with the (non-empty) suffix
/// loses that, whether or not the other rule applied, and what is left is trimmed.
pub proof fn law_prefix_and_suffix_strip_independently(m: FilterModel, pid: i32, title: Seq<char>)
    ensures
        ({
            let p = m.prefix_of(pid);
            let s = m.suffix_of(pid);
            let has_p = p.len() > 0 && starts_with(title, p);
            let has_s = s.len() > 0 && ends_with(title, s);
            let r = m.apply_rename(pid, title);
            &&& !has_p && !has_s ==> r == trim(title)
            &&& has_p && !has_s ==> r == trim(title.subrange(p.len() as int, title.len() as int))
            &&& !has_p && has_s ==> r == trim(title.subrange(0, title.len() - s.len()))
            &&& has_p && has_s && p.len() + s.len() <= title.len() ==> r == trim(
                title.subrange(p.len() as int, title.len() - s.len()),
            )
        }),
{
    let p = m.prefix_of(pid);
    let s = m.suffix_of(pid);
    let has_p = p.len() > 0 && starts_with(title, p);
    let has_s = s.len() > 0 && ends_with(title, s);
    if has_p {
        let t1 = title.subrange(p.len() as int, title.len() as int);
        if s.len() > 0 && ends_with(t1, s) {
            assert(t1.subrange(t1.len() - s.len(), t1.len() as int) =~= title.subrange(
                title.len() - s.len(),
                title.len() as int,
            ));
            assert(t1.subrange(0, t1.len() - s.len()) =~= title.subrange(p.len() as int, title.len() - s.len()));
        }
        if has_s && p.len() + s.len() <= title.len() {
            assert(t1.subrange(t1.len() - s.len(), t1.len() as int) =~= title.subrange(
                title.len() - s.len(),
                title.len() as int,
            ));
            assert(ends_with(t1, s));
            assert(t1.subrange(0, t1.len() - s.len()) =~= title.subrange(p.len() as int, title.len() - s.len()));
        }
    }
}

/// A change to one profile leaves every other profile's rules and version as they were,
/// and raises the changed profile's version by one.
pub proof fn law_changes_are_per_profile(m: FilterModel, pid: i32, other: i32, key: Seq<char>, value: Seq<char>, flag: bool)
    requires
        other != pid,
        m.version_of(pid) < u64::MAX,
    ensures
        m.with_genre_disabled(pid, key, flag).same_rules(m, other),
        m.with_channel_disabled(pid, key, flag).same_rules(m, other),
        m.with_profile_reset(pid).same_rules(m, other),
        m.with_rename(pid, key, value).same_rules(m, other),
        m.with_genre_rename(pid, key, value).same_rules(m, other),
        m.with_genre_disabled(pid, key, flag).version_of(pid) == m.version_of(pid) + 1,
        m.with_channel_disabled(pid, key, flag).version_of(pid) == m.version_of(pid) + 1,
        m.with_profile_reset(pid).version_of(pid) == m.version_of(pid) + 1,
        m.with_rename(pid, key, value).version_of(pid) == m.version_of(pid) + 1,
        m.with_genre_rename(pid, key, value).version_of(pid) == m.version_of(pid) + 1,
{
}

} // verus!

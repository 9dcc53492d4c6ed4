//! The concurrent maps and sets (from `dashmap`) that span and session
//! bookkeeping keep, with what each method used does to their contents.
//! Keys are strings, compared by their characters. The methods that change
//! a map take it by `&mut` here, so that the change shows in contracts.
//! What a map holds is named per kind of map (span handles, step ids, run
//! ids, sessions), since such a name is not generic; each method used gets
//! one wrapper per kind.
use vstd::prelude::*;
use dashmap::{DashMap, DashSet};
use crate::browser_sessions::BrowserSessionEntry;

verus! {

/// `dashmap::DashMap`, carried without looking inside.
#[verifier::external_type_specification]
#[verifier::external_body]
#[verifier::reject_recursive_types(K)]
#[verifier::reject_recursive_types(V)]
#[verifier::reject_recursive_types(S)]
pub struct ExDashMap<K, V, S>(DashMap<K, V, S>);

/// `dashmap::DashSet`, carried without looking inside.
#[verifier::external_type_specification]
#[verifier::external_body]
#[verifier::reject_recursive_types(K)]
#[verifier::reject_recursive_types(S)]
pub struct ExDashSet<K, S>(DashSet<K, S>);

/// What a map of span handles holds: key → handle.
pub uninterp spec fn handles_of(m: DashMap<String, u64>) -> Map<Seq<char>, u64>;

/// What a map of step ids holds: run id → step id.
pub uninterp spec fn step_ids_of(m: DashMap<String, String>) -> Map<Seq<char>, Seq<char>>;

/// What a set of run ids holds.
pub uninterp spec fn members_of(s: DashSet<String>) -> Set<Seq<char>>;

/// What a session table holds: name → the session id of its entry.
pub uninterp spec fn sessions_of(m: DashMap<String, BrowserSessionEntry>) -> Map<Seq<char>, Seq<char>>;

/// `DashMap::new`: an empty map.
#[verifier::external_body]
pub(crate) fn handles_new() -> (res: DashMap<String, u64>)
    ensures
        handles_of(res).dom().is_empty(),
{
    DashMap::new()
}

/// `DashMap::insert`: sets `k` to `v`; the value it replaces, if any.
#[verifier::external_body]
pub(crate) fn handles_insert(m: &mut DashMap<String, u64>, k: String, v: u64) -> (res: Option<u64>)
    ensures
        handles_of(*final(m)) == handles_of(*old(m)).insert(k@, v),
        res == (if handles_of(*old(m)).dom().contains(k@) {
            Some(handles_of(*old(m))[k@])
        } else {
            None
        }),
{
    m.insert(k, v)
}

/// `DashMap::remove`: takes out `k`; its value, if it had one.
#[verifier::external_body]
pub(crate) fn handles_remove(m: &mut DashMap<String, u64>, k: &str) -> (res: Option<u64>)
    ensures
        handles_of(*final(m)) == handles_of(*old(m)).remove(k@),
        res == (if handles_of(*old(m)).dom().contains(k@) {
            Some(handles_of(*old(m))[k@])
        } else {
            None
        }),
{
    m.remove(k).map(|(_, v)| v)
}

/// `DashMap::get`: the value at `k`, if any.
#[verifier::external_body]
pub(crate) fn handles_get(m: &DashMap<String, u64>, k: &str) -> (res: Option<u64>)
    ensures
        res == (if handles_of(*m).dom().contains(k@) {
            Some(handles_of(*m)[k@])
        } else {
            None
        }),
{
    m.get(k).map(|r| *r)
}

/// `DashMap::new`: an empty map.
#[verifier::external_body]
pub(crate) fn step_ids_new() -> (res: DashMap<String, String>)
    ensures
        step_ids_of(res).dom().is_empty(),
{
    DashMap::new()
}

/// `DashMap::insert`: sets `k` to `v` (the replaced value is dropped).
#[verifier::external_body]
pub(crate) fn step_ids_insert(m: &mut DashMap<String, String>, k: String, v: String)
    ensures
        step_ids_of(*final(m)) == step_ids_of(*old(m)).insert(k@, v@),
{
    m.insert(k, v);
}

/// `DashMap::remove`: takes out `k` (its value is dropped).
#[verifier::external_body]
pub(crate) fn step_ids_remove(m: &mut DashMap<String, String>, k: &str)
    ensures
        step_ids_of(*final(m)) == step_ids_of(*old(m)).remove(k@),
{
    m.remove(k);
}

/// `DashMap::get`: the value at `k`, if any.
#[verifier::external_body]
pub(crate) fn step_ids_get(m: &DashMap<String, String>, k: &str) -> (res: Option<String>)
    ensures
        match res {
            Some(v) => step_ids_of(*m).dom().contains(k@) && v@ == step_ids_of(*m)[k@],
            None => !step_ids_of(*m).dom().contains(k@),
        },
{
    m.get(k).map(|r| r.value().clone())
}

/// `DashSet::new`: an empty set.
#[verifier::external_body]
pub(crate) fn members_new() -> (res: DashSet<String>)
    ensures
        members_of(res).is_empty(),
{
    DashSet::new()
}

/// `DashSet::insert`: adds `k`.
#[verifier::external_body]
pub(crate) fn members_insert(s: &mut DashSet<String>, k: String)
    ensures
        members_of(*final(s)) == members_of(*old(s)).insert(k@),
{
    s.insert(k);
}

/// `DashSet::remove`: takes out `k`.
#[verifier::external_body]
pub(crate) fn members_remove(s: &mut DashSet<String>, k: &str)
    ensures
        members_of(*final(s)) == members_of(*old(s)).remove(k@),
{
    s.remove(k);
}

/// `DashSet::contains`: whether `k` is in the set.
#[verifier::external_body]
pub(crate) fn members_contains(s: &DashSet<String>, k: &str) -> (res: bool)
    ensures
        res == members_of(*s).contains(k@),
{
    s.contains(k)
}

/// `DashMap::new`: an empty table.
#[verifier::external_body]
pub(crate) fn sessions_new() -> (res: DashMap<String, BrowserSessionEntry>)
    ensures
        sessions_of(res).dom().is_empty(),
{
    DashMap::new()
}

/// `DashMap::insert`: keeps `entry` under `k` (the replaced entry is dropped).
#[verifier::external_body]
pub(crate) fn sessions_insert(m: &mut DashMap<String, BrowserSessionEntry>, k: String, entry: BrowserSessionEntry)
    ensures
        sessions_of(*final(m)) == sessions_of(*old(m)).insert(k@, entry.session_id@),
{
    m.insert(k, entry);
}

/// `DashMap::remove`: takes out `k`; the session id of its entry, if any.
#[verifier::external_body]
pub(crate) fn sessions_remove(m: &mut DashMap<String, BrowserSessionEntry>, k: &str) -> (res: Option<String>)
    ensures
        sessions_of(*final(m)) == sessions_of(*old(m)).remove(k@),
        match res {
            Some(s) => sessions_of(*old(m)).dom().contains(k@) && s@ == sessions_of(*old(m))[k@],
            None => !sessions_of(*old(m)).dom().contains(k@),
        },
{
    m.remove(k).map(|(_, e)| e.session_id)
}

/// `DashMap::get`: the session id of the entry under `k`, if any.
#[verifier::external_body]
pub(crate) fn sessions_get(m: &DashMap<String, BrowserSessionEntry>, k: &str) -> (res: Option<String>)
    ensures
        match res {
            Some(s) => sessions_of(*m).dom().contains(k@) && s@ == sessions_of(*m)[k@],
            None => !sessions_of(*m).dom().contains(k@),
        },
{
    m.get(k).map(|r| r.session_id.clone())
}

/// `DashMap::iter`, first item: some name in the table (which one depends
/// on how the table is walked), or `None` when it is empty.
#[verifier::external_body]
pub(crate) fn sessions_any_key(m: &DashMap<String, BrowserSessionEntry>) -> (res: Option<String>)
    ensures
        match res {
            Some(k) => sessions_of(*m).dom().contains(k@),
            None => sessions_of(*m).dom().is_empty(),
        },
{
    m.iter().next().map(|r| r.key().clone())
}

/// `DashMap::iter`: the names in the table, each once, in the order the
/// table is walked (which is not stated).
#[verifier::external_body]
pub(crate) fn sessions_keys(m: &DashMap<String, BrowserSessionEntry>) -> (res: Vec<String>)
    ensures
        res@.map_values(|s: String| s@).no_duplicates(),
        res@.map_values(|s: String| s@).to_set() == sessions_of(*m).dom(),
{
    m.iter().map(|r| r.key().clone()).collect()
}

} // verus!

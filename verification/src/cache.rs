//! The cache store: a point-in-time snapshot of the remote mod listing and
//! of one version list per framework, each stamped with when it was
//! fetched. Loads are pure retrievals — staleness is the caller's policy —
//! and the store never drops data on its own. Persistence to disk is the
//! caller's business; this model is the store's contract.
use vstd::prelude::*;
use vstd::string::*;
use crate::registry::names_seq;

verus! {

/// One remote listing record for an add-on.
pub struct ModMeta {
    pub requires_steamodded: bool,
    pub requires_talisman: bool,
    pub categories: Vec<String>,
    pub author: String,
    pub repo: String,
    pub title: String,
    pub download_url: Option<String>,
    pub folder_name: String,
    pub version: String,
    pub automatic_version_check: bool,
}

/// A locally tracked repository snapshot: its path and the last commit
/// time it was synchronized to.
pub struct ModCacheInfo {
    pub path: String,
    pub last_commit: i64,
}

/// One cached version list: the framework kind it belongs to, the ordered
/// version tags (most recent first), and when they were fetched.
pub struct VersionsEntry {
    pub kind: String,
    pub versions: Vec<String>,
    pub fetched_at: u64,
}

/// The version list stored under `kind`, if any; a later entry wins, which
/// makes a save last-writer-wins.
pub open spec fn lookup_versions(entries: Seq<VersionsEntry>, kind: Seq<char>) -> Option<
    (Seq<Seq<char>>, u64),
>
    decreases entries.len(),
{
    if entries.len() == 0 {
        None
    } else if entries.last().kind@ == kind {
        Some((names_seq(entries.last().versions@), entries.last().fetched_at))
    } else {
        lookup_versions(entries.drop_last(), kind)
    }
}

/// No two entries cache the same kind.
pub open spec fn unique_kinds(entries: Seq<VersionsEntry>) -> bool {
    forall|i: int, j: int| 0 <= i < j < entries.len() ==> entries[i].kind@ != entries[j].kind@
}

/// Overwriting the entry of a kind in place changes that kind's lookup and
/// no other.
proof fn lemma_lookup_update(entries: Seq<VersionsEntry>, i: int, e: VersionsEntry, k: Seq<char>)
    requires
        unique_kinds(entries),
        0 <= i < entries.len(),
        entries[i].kind@ == e.kind@,
    ensures
        lookup_versions(entries.update(i, e), k) == if k == e.kind@ {
            Some((names_seq(e.versions@), e.fetched_at))
        } else {
            lookup_versions(entries, k)
        },
    decreases entries.len(),
{
    let upd = entries.update(i, e);
    if i == entries.len() - 1 {
        assert(upd.last() == e);
        assert(upd.drop_last() =~= entries.drop_last());
        assert(entries.last().kind@ == e.kind@);
        if k != e.kind@ {
            assert(lookup_versions(upd, k) == lookup_versions(upd.drop_last(), k));
        }
    } else {
        assert(upd.last() == entries.last());
        assert(upd.drop_last() =~= entries.drop_last().update(i, e));
        assert(forall|t: int|
            0 <= t < entries.len() - 1 ==> entries.drop_last()[t] == entries[t]);
        assert(unique_kinds(entries.drop_last()));
        lemma_lookup_update(entries.drop_last(), i, e, k);
        assert(entries.last().kind@ != e.kind@);
    }
}

/// Appending an entry for a fresh kind changes that kind's lookup and no
/// other.
proof fn lemma_lookup_push(entries: Seq<VersionsEntry>, e: VersionsEntry, k: Seq<char>)
    ensures
        lookup_versions(entries.push(e), k) == if k == e.kind@ {
            Some((names_seq(e.versions@), e.fetched_at))
        } else {
            lookup_versions(entries, k)
        },
{
    let p = entries.push(e);
    assert(p.last() == e);
    assert(p.drop_last() =~= entries);
}

/// The cache store: an unversioned mod-listing slot and one version-list
/// slot per framework kind.
pub struct CacheStore {
    listing: Option<(Vec<ModMeta>, u64)>,
    versions: Vec<VersionsEntry>,
}

impl CacheStore {
    /// The mod-listing slot: the records and when they were fetched.
    pub closed spec fn listing_slot(&self) -> Option<(Seq<ModMeta>, u64)> {
        match self.listing {
            Some(pair) => Some((pair.0@, pair.1)),
            None => None,
        }
    }

    /// The cached version-list entries.
    pub closed spec fn version_entries(&self) -> Seq<VersionsEntry> {
        self.versions@
    }

    /// The version list cached under `kind`, with its fetch time.
    pub open spec fn versions_slot(&self, kind: Seq<char>) -> Option<(Seq<Seq<char>>, u64)> {
        lookup_versions(self.version_entries(), kind)
    }

    /// Well-formed: one entry per kind.
    pub open spec fn wf(&self) -> bool {
        unique_kinds(self.version_entries())
    }

    /// An empty store: every load comes back absent.
    pub fn new() -> (r: CacheStore)
        ensures
            r.wf(),
            r.listing_slot() is None,
            forall|k: Seq<char>| r.versions_slot(k) is None,
    {
        let r = CacheStore { listing: None, versions: Vec::new() };
        proof {
            assert(forall|k: Seq<char>| lookup_versions(r.version_entries(), k) is None);
        }
        r
    }

    /// Stores the mod listing, overwriting the prior value and stamping it
    /// with `now`.
    pub fn save_listing(&mut self, mods: Vec<ModMeta>, now: u64)
        requires
            old(self).wf(),
        ensures
            final(self).wf(),
            final(self).listing_slot() == Some((mods@, now)),
            final(self).version_entries() == old(self).version_entries(),
    {
        self.listing = Some((mods, now));
    }

    /// Pure retrieval of the mod listing; never applies a freshness window.
    pub fn load_listing(&self) -> (r: Option<(&Vec<ModMeta>, u64)>)
        ensures
            match r {
                Some((mods, t)) => self.listing_slot() == Some((mods@, t)),
                None => self.listing_slot() is None,
            },
    {
        match &self.listing {
            Some((mods, t)) => Some((mods, *t)),
            None => None,
        }
    }

    /// Stores the version list for `kind`, overwriting the prior value for
    /// that kind only and stamping it with `now`.
    pub fn save_versions(&mut self, kind: &String, versions: Vec<String>, now: u64)
        requires
            old(self).wf(),
        ensures
            final(self).wf(),
            final(self).listing_slot() == old(self).listing_slot(),
            final(self).versions_slot(kind@) == Some((names_seq(versions@), now)),
            forall|k: Seq<char>|
                k != kind@ ==> final(self).versions_slot(k) == old(self).versions_slot(k),
    {
        let n = self.versions.len();
        let mut i: usize = 0;
        while i < n
            invariant
                i <= n,
                n == self.versions@.len(),
                *self == *old(self),
                self.wf(),
                forall|t: int| 0 <= t < i ==> self.versions@[t].kind@ != kind@,
            decreases n - i,
        {
            if self.versions[i].kind == *kind {
                let entry = VersionsEntry {
                    kind: kind.clone(),
                    versions,
                    fetched_at: now,
                };
                let ghost before = self.versions@;
                self.versions.set(i, entry);
                proof {
                    lemma_lookup_update(before, i as int, entry, kind@);
                    assert(forall|k: Seq<char>| k != kind@ ==> lookup_versions(
                        self.versions@,
                        k,
                    ) == lookup_versions(before, k)) by {
                        assert forall|k: Seq<char>| k != kind@ implies lookup_versions(
                            self.versions@,
                            k,
                        ) == lookup_versions(before, k) by {
                            lemma_lookup_update(before, i as int, entry, k);
                        }
                    }
                    assert(forall|a: int, b: int|
                        0 <= a < b < self.versions@.len() ==> self.versions@[a].kind@
                            != self.versions@[b].kind@);
                }
                return ;
            }
            i += 1;
        }
        let entry = VersionsEntry { kind: kind.clone(), versions, fetched_at: now };
        let ghost before = self.versions@;
        self.versions.push(entry);
        proof {
            lemma_lookup_push(before, entry, kind@);
            assert(forall|k: Seq<char>| k != kind@ ==> lookup_versions(self.versions@, k)
                == lookup_versions(before, k)) by {
                assert forall|k: Seq<char>| k != kind@ implies lookup_versions(
                    self.versions@,
                    k,
                ) == lookup_versions(before, k) by {
                    lemma_lookup_push(before, entry, k);
                }
            }
            assert(forall|t: int| 0 <= t < before.len() ==> self.versions@[t] == before[t]);
        }
    }

    /// Pure retrieval of the version list cached under `kind`.
    pub fn load_versions(&self, kind: &String) -> (r: Option<(&Vec<String>, u64)>)
        requires
            self.wf(),
        ensures
            match r {
                Some((versions, t)) => self.versions_slot(kind@) == Some((
                    names_seq(versions@),
                    t,
                )),
                None => self.versions_slot(kind@) is None,
            },
    {
        let n = self.versions.len();
        let mut i: usize = 0;
        while i < n
            invariant
                i <= n,
                self.wf(),
                n == self.versions@.len(),
                forall|t: int| 0 <= t < i ==> self.versions@[t].kind@ != kind@,
            decreases n - i,
        {
            let e = &self.versions[i];
            if e.kind == *kind {
                proof {
                    lemma_lookup_found(self.versions@, i as int, kind@);
                }
                return Some((&e.versions, e.fetched_at));
            }
            i += 1;
        }
        proof {
            lemma_lookup_missing(self.versions@, kind@);
        }
        None
    }

    /// Stores the mod listing stamped with the current time, and returns
    /// the stamp used.
    pub fn save_listing_now(&mut self, mods: Vec<ModMeta>) -> (stamp: u64)
        requires
            old(self).wf(),
        ensures
            final(self).wf(),
            final(self).listing_slot() == Some((mods@, stamp)),
            final(self).version_entries() == old(self).version_entries(),
    {
        let now = unix_now_secs();
        self.save_listing(mods, now);
        now
    }

    /// Stores a version list stamped with the current time, and returns
    /// the stamp used.
    pub fn save_versions_now(&mut self, kind: &String, versions: Vec<String>) -> (stamp: u64)
        requires
            old(self).wf(),
        ensures
            final(self).wf(),
            final(self).listing_slot() == old(self).listing_slot(),
            final(self).versions_slot(kind@) == Some((names_seq(versions@), stamp)),
            forall|k: Seq<char>|
                k != kind@ ==> final(self).versions_slot(k) == old(self).versions_slot(k),
    {
        let now = unix_now_secs();
        self.save_versions(kind, versions, now);
        now
    }

    /// Removes every partition at once; afterwards every load is absent.
    pub fn clear(&mut self)
        ensures
            final(self).wf(),
            final(self).listing_slot() is None,
            forall|k: Seq<char>| final(self).versions_slot(k) is None,
    {
        self.listing = None;
        self.versions = Vec::new();
        proof {
            assert(forall|k: Seq<char>| lookup_versions(self.version_entries(), k) is None);
        }
    }
}

/// When an entry for the kind stands at `i` and kinds are unique, lookup
/// finds exactly that entry.
proof fn lemma_lookup_found(entries: Seq<VersionsEntry>, i: int, kind: Seq<char>)
    requires
        unique_kinds(entries),
        0 <= i < entries.len(),
        entries[i].kind@ == kind,
    ensures
        lookup_versions(entries, kind) == Some(
            (names_seq(entries[i].versions@), entries[i].fetched_at),
        ),
    decreases entries.len(),
{
    if i == entries.len() - 1 {
    } else {
        assert(entries.last().kind@ != kind);
        assert(forall|t: int| 0 <= t < entries.len() - 1 ==> entries.drop_last()[t] == entries[t]);
        assert(unique_kinds(entries.drop_last()));
        lemma_lookup_found(entries.drop_last(), i, kind);
    }
}

/// When no entry carries the kind, lookup is absent.
proof fn lemma_lookup_missing(entries: Seq<VersionsEntry>, kind: Seq<char>)
    requires
        forall|t: int| 0 <= t < entries.len() ==> entries[t].kind@ != kind,
    ensures
        lookup_versions(entries, kind) is None,
    decreases entries.len(),
{
    if entries.len() > 0 {
        assert(forall|t: int| 0 <= t < entries.len() - 1 ==> entries.drop_last()[t] == entries[t]);
        lemma_lookup_missing(entries.drop_last(), kind);
    }
}

/// Relies on std::time::SystemTime::now and duration_since(UNIX_EPOCH):
/// the current time in whole seconds since the Unix epoch. The value
/// depends on the clock, so nothing is promised of it.
#[verifier::external_body]
pub fn unix_now_secs() -> u64 {
    match std::time::SystemTime::now().duration_since(std::time::UNIX_EPOCH) {
        Ok(d) => d.as_secs(),
        Err(_) => 0,
    }
}

} // verus!

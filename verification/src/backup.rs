//! Backups: a backup is a copy of an add-on's file tree plus a metadata
//! record binding it to the original path with the time it was taken.
//! Several backups may exist per path; restore always selects the one
//! with the greatest backup time. Copying and reading directories is the
//! caller's business; this module decides which backup to restore or
//! remove and what a new backup's record says.
use vstd::prelude::*;
use vstd::string::*;
use crate::text::dec_rep;
use crate::text::u64_to_string;

verus! {

/// The self-describing record of one backup.
pub struct BackupMeta {
    /// The time-derived identifier the backup directory is named with.
    pub backup_id: String,
    /// The path the backed-up tree came from.
    pub original_path: String,
    /// When the backup was taken, in seconds since the Unix epoch.
    pub backup_time: u64,
}

/// `metas[j]` backs up `path`.
pub open spec fn backs_up(metas: Seq<BackupMeta>, j: int, path: Seq<char>) -> bool {
    0 <= j < metas.len() && metas[j].original_path@ == path
}

/// Selects the backup to restore for `path`: the one with the greatest
/// backup time among those recorded for the path, the earliest such entry
/// on a tie; a backup stamped zero never qualifies, and with no qualifying
/// backup there is nothing to restore.
pub fn select_latest(metas: &Vec<BackupMeta>, path: &String) -> (r: Option<usize>)
    ensures
        match r {
            Some(i) => {
                &&& backs_up(metas@, i as int, path@)
                &&& metas@[i as int].backup_time >= 1
                &&& forall|j: int|
                    backs_up(metas@, j, path@) ==> metas@[j].backup_time <= metas@[i as int].backup_time
                &&& forall|j: int|
                    0 <= j < i && backs_up(metas@, j, path@) ==> metas@[j].backup_time < metas@[i as int].backup_time
            },
            None => forall|j: int| backs_up(metas@, j, path@) ==> metas@[j].backup_time == 0,
        },
{
    let n = metas.len();
    let mut best: Option<usize> = None;
    let mut best_time: u64 = 0;
    let mut i: usize = 0;
    while i < n
        invariant
            i <= n,
            n == metas@.len(),
            match best {
                Some(b) => {
                    &&& b < i
                    &&& backs_up(metas@, b as int, path@)
                    &&& metas@[b as int].backup_time == best_time
                    &&& best_time >= 1
                    &&& forall|j: int|
                        0 <= j < i && backs_up(metas@, j, path@) ==> metas@[j].backup_time
                            <= best_time
                    &&& forall|j: int|
                        0 <= j < b && backs_up(metas@, j, path@) ==> metas@[j].backup_time
                            < best_time
                },
                None => best_time == 0 && forall|j: int|
                    0 <= j < i && backs_up(metas@, j, path@) ==> metas@[j].backup_time == 0,
            },
        decreases n - i,
    {
        let m = &metas[i];
        if m.original_path == *path && m.backup_time > best_time {
            best = Some(i);
            best_time = m.backup_time;
        }
        i += 1;
    }
    best
}

/// The identifiers of every backup recorded for `path`, in scan order;
/// removing a path's backups removes them all.
pub open spec fn backups_for(metas: Seq<BackupMeta>, path: Seq<char>) -> Seq<String>
    decreases metas.len(),
{
    if metas.len() == 0 {
        Seq::empty()
    } else {
        let rest = backups_for(metas.drop_last(), path);
        if metas.last().original_path@ == path {
            rest.push(metas.last().backup_id)
        } else {
            rest
        }
    }
}

/// Names every backup recorded for `path`; the caller removes the named
/// backup directories.
pub fn backups_to_remove(metas: &Vec<BackupMeta>, path: &String) -> (r: Vec<String>)
    ensures
        r@ == backups_for(metas@, path@),
{
    let n = metas.len();
    let mut r: Vec<String> = Vec::new();
    let mut i: usize = 0;
    while i < n
        invariant
            i <= n,
            n == metas@.len(),
            r@ == backups_for(metas@.take(i as int), path@),
        decreases n - i,
    {
        let ghost prefix = metas@.take(i as int);
        let m = &metas[i];
        if m.original_path == *path {
            r.push(m.backup_id.clone());
        }
        proof {
            assert(metas@.take(i + 1).drop_last() =~= prefix);
            assert(metas@.take(i + 1).last() == metas@[i as int]);
        }
        i += 1;
    }
    proof {
        assert(metas@.take(n as int) =~= metas@);
    }
    r
}

/// The record a new backup writes: a `backup_` identifier derived from the
/// moment in milliseconds, bound to the original path and stamped with
/// the moment in seconds.
pub fn backup_record(original_path: String, now_millis: u64, now_secs: u64) -> (r: BackupMeta)
    ensures
        r.backup_id@ == "backup_"@ + dec_rep(now_millis as nat),
        r.original_path == original_path,
        r.backup_time == now_secs,
{
    let mut id = String::from_str("backup_");
    let digits = u64_to_string(now_millis);
    id.append(digits.as_str());
    BackupMeta { backup_id: id, original_path, backup_time: now_secs }
}

} // verus!

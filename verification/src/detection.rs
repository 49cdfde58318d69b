//! Local detection: reconciles the on-disk add-on directory against the
//! recorded installed set. Detection is read-only — it surfaces untracked
//! directories as candidates, classified against the remote listing. The
//! refresh plan names the entries whose files should go because no record
//! tracks them; the caller performs the deletions.
use vstd::prelude::*;
use vstd::string::*;
use crate::cache::ModMeta;
use crate::errors::AppError;
use crate::registry::InstalledMod;
use crate::registry::Registry;
use crate::registry::contains_name;
use crate::resolver::first_match;
use crate::text::contains_substring;
use crate::text::is_prefix_of;
use crate::text::is_substring_of;
use crate::text::starts_with;

verus! {

/// An on-disk add-on that no record tracks, with its guessed identity.
/// Ephemeral: computed on each call, never persisted.
pub struct DetectedMod {
    /// The display name: the listing's title when the entry was
    /// recognized, else the directory name itself.
    pub name: String,
    /// The directory name the entry was found under.
    pub folder: String,
    /// Whether the remote listing recognized the entry.
    pub recognized: bool,
    /// The framework requirements the listing declares for it.
    pub requires_steamodded: bool,
    pub requires_talisman: bool,
}

/// Some recorded row's path mentions the directory name: the entry is
/// tracked.
pub open spec fn entry_tracked(rows: Seq<InstalledMod>, entry: Seq<char>) -> bool {
    exists|i: int| 0 <= i < rows.len() && is_substring_of(entry, (#[trigger] rows[i]).path@)
}

/// The candidate a directory entry turns into, classified against the
/// remote listing by folder name or title.
pub open spec fn classify(listing: Seq<ModMeta>, entry: String) -> DetectedMod {
    match first_match(listing, entry@) {
        Some(m) => DetectedMod {
            name: m.title,
            folder: entry,
            recognized: true,
            requires_steamodded: m.requires_steamodded,
            requires_talisman: m.requires_talisman,
        },
        None => DetectedMod {
            name: entry,
            folder: entry,
            recognized: false,
            requires_steamodded: false,
            requires_talisman: false,
        },
    }
}

/// The detection result: one candidate per untracked directory entry, in
/// directory order.
pub open spec fn detected_of(
    rows: Seq<InstalledMod>,
    listing: Seq<ModMeta>,
    entries: Seq<String>,
) -> Seq<DetectedMod>
    decreases entries.len(),
{
    if entries.len() == 0 {
        Seq::empty()
    } else {
        let rest = detected_of(rows, listing, entries.drop_last());
        if entry_tracked(rows, entries.last()@) {
            rest
        } else {
            rest.push(classify(listing, entries.last()))
        }
    }
}

/// Classifies one untracked directory entry against the remote listing.
fn classify_entry(listing: &Vec<ModMeta>, entry: &String) -> (r: DetectedMod)
    ensures
        r == classify(listing@, *entry),
{
    let n = listing.len();
    let mut i: usize = 0;
    proof {
        assert(listing@.skip(0) =~= listing@);
    }
    while i < n
        invariant
            i <= n,
            n == listing@.len(),
            first_match(listing@, entry@) == first_match(listing@.skip(i as int), entry@),
        decreases n - i,
    {
        let m = &listing[i];
        let hit = m.title == *entry || m.folder_name == *entry;
        proof {
            assert(listing@.skip(i as int)[0] == listing@[i as int]);
            assert(listing@.skip(i as int).skip(1) =~= listing@.skip(i + 1));
        }
        if hit {
            proof {
                assert(first_match(listing@, entry@) == Some(listing@[i as int]));
            }
            return DetectedMod {
                name: m.title.clone(),
                folder: entry.clone(),
                recognized: true,
                requires_steamodded: m.requires_steamodded,
                requires_talisman: m.requires_talisman,
            };
        }
        i += 1;
    }
    proof {
        assert(listing@.skip(n as int) =~= Seq::<ModMeta>::empty());
    }
    DetectedMod {
        name: entry.clone(),
        folder: entry.clone(),
        recognized: false,
        requires_steamodded: false,
        requires_talisman: false,
    }
}

/// Whether some recorded row's path mentions the entry name.
fn is_tracked(rows: &Vec<InstalledMod>, entry: &String) -> (r: bool)
    ensures
        r == entry_tracked(rows@, entry@),
{
    let n = rows.len();
    let mut i: usize = 0;
    while i < n
        invariant
            i <= n,
            n == rows@.len(),
            forall|j: int| 0 <= j < i ==> !is_substring_of(entry@, (#[trigger] rows@[j]).path@),
        decreases n - i,
    {
        if contains_substring(rows[i].path.as_str(), entry.as_str()) {
            return true;
        }
        i += 1;
    }
    false
}

/// Surfaces every on-disk entry that no recorded row tracks, classified
/// against the remote listing. Read-only: mutates neither the record
/// store nor the filesystem; the caller decides whether to adopt a
/// candidate.
pub fn detect(reg: &Registry, listing: &Vec<ModMeta>, disk_entries: &Vec<String>) -> (r: Vec<
    DetectedMod,
>)
    ensures
        r@ == detected_of(reg.rows(), listing@, disk_entries@),
{
    let rows = reg.mods();
    let n = disk_entries.len();
    let mut r: Vec<DetectedMod> = Vec::new();
    let mut i: usize = 0;
    while i < n
        invariant
            i <= n,
            n == disk_entries@.len(),
            rows@ == reg.rows(),
            r@ == detected_of(reg.rows(), listing@, disk_entries@.take(i as int)),
        decreases n - i,
    {
        let ghost prefix = disk_entries@.take(i as int);
        let e = &disk_entries[i];
        let already = is_tracked(rows, e);
        if !already {
            let candidate = classify_entry(listing, e);
            r.push(candidate);
        }
        proof {
            assert(disk_entries@.take(i + 1).drop_last() =~= prefix);
            assert(disk_entries@.take(i + 1).last() == disk_entries@[i as int]);
        }
        i += 1;
    }
    proof {
        assert(disk_entries@.take(n as int) =~= disk_entries@);
    }
    r
}

/// The refresh plan: an on-disk entry's files should go exactly when its
/// name does not belong to the mod loader (no `lovely` in it) and no
/// recorded row's path mentions it.
pub open spec fn should_remove_entry(rows: Seq<InstalledMod>, entry: Seq<char>) -> bool {
    !is_substring_of("lovely"@, entry) && !entry_tracked(rows, entry)
}

/// The entries of the refresh plan, in directory order.
pub open spec fn refresh_plan_of(rows: Seq<InstalledMod>, entries: Seq<String>) -> Seq<String>
    decreases entries.len(),
{
    if entries.len() == 0 {
        Seq::empty()
    } else {
        let rest = refresh_plan_of(rows, entries.drop_last());
        if should_remove_entry(rows, entries.last()@) {
            rest.push(entries.last())
        } else {
            rest
        }
    }
}

/// Names the on-disk entries whose files should be deleted because no
/// recorded row tracks them; mod-loader entries are always spared. The
/// caller performs the deletions.
pub fn refresh_plan(reg: &Registry, disk_entries: &Vec<String>) -> (r: Vec<String>)
    ensures
        r@ == refresh_plan_of(reg.rows(), disk_entries@),
{
    let rows = reg.mods();
    let n = disk_entries.len();
    let mut r: Vec<String> = Vec::new();
    let mut i: usize = 0;
    while i < n
        invariant
            i <= n,
            n == disk_entries@.len(),
            rows@ == reg.rows(),
            r@ == refresh_plan_of(reg.rows(), disk_entries@.take(i as int)),
        decreases n - i,
    {
        let ghost prefix = disk_entries@.take(i as int);
        let e = &disk_entries[i];
        let spare = contains_substring(e.as_str(), "lovely");
        let already = is_tracked(rows, e);
        if !spare && !already {
            r.push(e.clone());
        }
        proof {
            assert(disk_entries@.take(i + 1).drop_last() =~= prefix);
            assert(disk_entries@.take(i + 1).last() == disk_entries@[i as int]);
        }
        i += 1;
    }
    proof {
        assert(disk_entries@.take(n as int) =~= disk_entries@);
    }
    r
}

/// `path` lies at or under `base`, compared component-wise on
/// canonicalized path strings: equal, or `base` followed by a separator.
pub open spec fn path_within(base: Seq<char>, path: Seq<char>) -> bool {
    path == base || (path.len() > base.len() && is_prefix_of(base, path) && path[base.len() as int]
        == '/')
}

/// Whether a canonicalized path lies at or under a canonicalized base
/// directory; a manual deletion outside the add-on directory is refused.
pub fn path_is_within(base: &str, path: &str) -> (r: bool)
    ensures
        r == path_within(base@, path@),
{
    let bn = base.unicode_len();
    let pn = path.unicode_len();
    if pn == bn {
        let eq = starts_with(path, base);
        proof {
            if eq {
                assert(path@.subrange(0, bn as int) =~= path@);
            }
            if path@ == base@ {
                assert(path@.subrange(0, bn as int) =~= base@);
            }
        }
        return eq;
    }
    if pn > bn && starts_with(path, base) {
        path.get_char(bn) == '/'
    } else {
        false
    }
}

/// Whether the named framework is installed or detected on disk. Only the
/// two framework identities may be asked after, spelled canonically;
/// anything else is invalid input.
pub fn framework_presence(reg: &Registry, detected: &Vec<DetectedMod>, mod_type: &String) -> (r:
    Result<bool, AppError>)
    ensures
        match r {
            Ok(present) => (mod_type@ == "Steamodded"@ || mod_type@ == "Talisman"@) && present == (
            contains_name(reg.rows(), mod_type@) || exists|j: int|
                0 <= j < detected@.len() && (#[trigger] detected@[j]).name@ == mod_type@),
            Err(e) => !(mod_type@ == "Steamodded"@ || mod_type@ == "Talisman"@) && e
                is InvalidInput,
        },
{
    let steamodded = String::from_str("Steamodded");
    let talisman = String::from_str("Talisman");
    if !(*mod_type == steamodded || *mod_type == talisman) {
        return Err(AppError::InvalidInput(mod_type.clone()));
    }
    match reg.find(mod_type) {
        Some(idx) => {
            proof {
                assert(reg.rows()[idx as int].name@ == mod_type@);
                assert(contains_name(reg.rows(), mod_type@));
            }
            Ok(true)
        },
        None => {
            let n = detected.len();
            let mut i: usize = 0;
            while i < n
                invariant
                    i <= n,
                    n == detected@.len(),
                    mod_type@ == "Steamodded"@ || mod_type@ == "Talisman"@,
                    forall|j: int| 0 <= j < i ==> (#[trigger] detected@[j]).name@ != mod_type@,
                decreases n - i,
            {
                if detected[i].name == *mod_type {
                    proof {
                        assert((#[trigger] detected@[i as int]).name@ == mod_type@);
                    }
                    return Ok(true);
                }
                i += 1;
            }
            Ok(false)
        },
    }
}

} // verus!

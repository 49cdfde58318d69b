//! The version resolver and installer logic: framework identities, the
//! deterministic download URL for a version tag, the cache-first decision
//! for listing versions and resolving the latest release, and the row a
//! successful framework install records. Network fetches are the caller's
//! business: when the decision here says the cache cannot answer, the
//! caller queries the remote feed and writes the result back.
use vstd::prelude::*;
use vstd::string::*;
use crate::cache::CacheStore;
use crate::cache::ModMeta;
use crate::registry::InstalledMod;
use crate::registry::Registry;
use crate::registry::contains_name;
use crate::registry::names_seq;

verus! {

/// The two framework roles that other add-ons may depend on.
#[derive(Clone, Copy, Debug, PartialEq, Eq, Structural)]
pub enum Framework {
    Steamodded,
    Talisman,
}

/// The canonical registry name of a framework.
pub open spec fn canonical_name_of(fw: Framework) -> Seq<char> {
    match fw {
        Framework::Steamodded => "Steamodded"@,
        Framework::Talisman => "Talisman"@,
    }
}

/// The cache kind a framework's version list is stored under.
pub open spec fn kind_key_of(fw: Framework) -> Seq<char> {
    match fw {
        Framework::Steamodded => "steamodded"@,
        Framework::Talisman => "talisman"@,
    }
}

/// The repository owner a framework's releases live under.
pub open spec fn repo_owner_of(fw: Framework) -> Seq<char> {
    match fw {
        Framework::Steamodded => "Steamodded"@,
        Framework::Talisman => "MathIsFun0"@,
    }
}

/// The repository name a framework's releases live under.
pub open spec fn repo_name_of(fw: Framework) -> Seq<char> {
    match fw {
        Framework::Steamodded => "smods"@,
        Framework::Talisman => "Talisman"@,
    }
}

/// The download URL for one tagged release: derived deterministically from
/// the framework identity and the tag.
pub open spec fn release_url_of(fw: Framework, tag: Seq<char>) -> Seq<char> {
    "https://github.com/"@ + repo_owner_of(fw) + "/"@ + repo_name_of(fw)
        + "/archive/refs/tags/"@ + tag + ".zip"@
}

/// The canonical registry name of a framework.
pub fn canonical_name(fw: Framework) -> (r: String)
    ensures
        r@ == canonical_name_of(fw),
{
    match fw {
        Framework::Steamodded => String::from_str("Steamodded"),
        Framework::Talisman => String::from_str("Talisman"),
    }
}

/// The cache kind a framework's version list is stored under.
pub fn kind_key(fw: Framework) -> (r: String)
    ensures
        r@ == kind_key_of(fw),
{
    match fw {
        Framework::Steamodded => String::from_str("steamodded"),
        Framework::Talisman => String::from_str("talisman"),
    }
}

/// Builds the download URL for one tagged release.
pub fn release_url(fw: Framework, tag: &str) -> (r: String)
    ensures
        r@ == release_url_of(fw, tag@),
{
    let mut url = String::from_str("https://github.com/");
    match fw {
        Framework::Steamodded => {
            url.append("Steamodded");
            url.append("/");
            url.append("smods");
        },
        Framework::Talisman => {
            url.append("MathIsFun0");
            url.append("/");
            url.append("Talisman");
        },
    }
    url.append("/archive/refs/tags/");
    url.append(tag);
    url.append(".zip");
    url
}

/// Resolves the latest release from the cache alone: when a cached version
/// list for the framework is non-empty, its first tag is authoritative and
/// the answer is that tag's download URL; otherwise the caller must query
/// the remote feed.
pub fn resolve_latest_from_cache(cache: &CacheStore, fw: Framework) -> (r: Option<String>)
    requires
        cache.wf(),
    ensures
        match cache.versions_slot(kind_key_of(fw)) {
            Some(pair) => if pair.0.len() > 0 {
                r matches Some(url) && url@ == release_url_of(fw, pair.0[0])
            } else {
                r is None
            },
            None => r is None,
        },
{
    let key = kind_key(fw);
    match cache.load_versions(&key) {
        Some((versions, _fetched_at)) => {
            if versions.len() > 0 {
                let tag = &versions[0];
                proof {
                    assert(names_seq(versions@)[0] == versions@[0]@);
                }
                Some(release_url(fw, tag.as_str()))
            } else {
                None
            }
        },
        None => None,
    }
}

/// Lists the framework's installable versions from the cache: the cached
/// list when one is present (of whatever age — staleness is the caller's
/// policy), else nothing, and the caller queries the remote feed and saves
/// what it derives.
pub fn versions_from_cache(cache: &CacheStore, fw: Framework) -> (r: Option<Vec<String>>)
    requires
        cache.wf(),
    ensures
        match cache.versions_slot(kind_key_of(fw)) {
            Some(pair) => r matches Some(v) && names_seq(v@) == pair.0,
            None => r is None,
        },
{
    let key = kind_key(fw);
    match cache.load_versions(&key) {
        Some((versions, _fetched_at)) => Some(copy_strings(versions)),
        None => None,
    }
}

/// A string-for-string copy.
fn copy_strings(src: &Vec<String>) -> (r: Vec<String>)
    ensures
        r@ == src@,
        names_seq(r@) == names_seq(src@),
{
    let n = src.len();
    let mut r: Vec<String> = Vec::new();
    let mut i: usize = 0;
    while i < n
        invariant
            i <= n,
            n == src@.len(),
            r@ =~= src@.take(i as int),
        decreases n - i,
    {
        r.push(src[i].clone());
        proof {
            assert(r@ =~= src@.take(i + 1));
        }
        i += 1;
    }
    proof {
        assert(src@.take(n as int) =~= src@);
    }
    r
}

/// The row a successful framework install records: the canonical name,
/// the installed path, no dependencies of its own, and the version that
/// was installed.
pub fn framework_install_row(fw: Framework, path: String, version: String) -> (r: InstalledMod)
    ensures
        r.name@ == canonical_name_of(fw),
        r.path == path,
        r.dependencies@.len() == 0,
        r.current_version == Some(version),
{
    InstalledMod {
        name: canonical_name(fw),
        path,
        dependencies: Vec::new(),
        current_version: Some(version),
    }
}

/// The row of a freshly installed framework: the canonical name, the
/// installed path, no dependencies of its own, and the installed version.
pub open spec fn is_framework_row(
    m: InstalledMod,
    fw: Framework,
    path: String,
    version: String,
) -> bool {
    &&& m.name@ == canonical_name_of(fw)
    &&& m.path == path
    &&& m.dependencies@.len() == 0
    &&& m.current_version == Some(version)
}

/// Records a successful framework install: replaces the framework's row
/// when one exists (a reinstall only moves `current_version`), else adds
/// one. Either way the framework's row afterwards carries exactly the
/// installed path and version with no declared dependencies, and no other
/// row changes.
pub fn record_framework_install(reg: &mut Registry, fw: Framework, path: String, version: String)
    requires
        old(reg).wf(),
    ensures
        final(reg).wf(),
        contains_name(final(reg).rows(), canonical_name_of(fw)),
        contains_name(old(reg).rows(), canonical_name_of(fw)) ==> exists|i: int|
            #![trigger old(reg).rows()[i]]
            0 <= i < old(reg).rows().len() && old(reg).rows()[i].name@ == canonical_name_of(fw)
                && is_framework_row(final(reg).rows()[i], fw, path, version) && final(reg).rows()
                == old(reg).rows().update(i, final(reg).rows()[i]),
        !contains_name(old(reg).rows(), canonical_name_of(fw)) ==> final(reg).rows().len() == old(
            reg,
        ).rows().len() + 1 && final(reg).rows().drop_last() == old(reg).rows()
            && is_framework_row(final(reg).rows().last(), fw, path, version),
{
    let row = framework_install_row(fw, path, version);
    let ghost name = row.name@;
    proof {
        assert(is_framework_row(row, fw, path, version));
    }
    reg.upsert(row);
    proof {
        if contains_name(old(reg).rows(), name) {
            let i = choose|i: int|
                0 <= i < old(reg).rows().len() && old(reg).rows()[i].name@ == name && reg.rows()
                    == old(reg).rows().update(i, row);
            assert(reg.rows()[i] == row);
            assert(reg.rows() =~= old(reg).rows().update(i, reg.rows()[i]));
        } else {
            assert(reg.rows().last() == row);
            assert(reg.rows().drop_last() =~= old(reg).rows());
        }
    }
}

/// Whether the cached listing says an update is available: the first
/// record matching the add-on by title or folder name decides, and only
/// when it carries a version different from the installed one. An unknown
/// installed version, no cache record, or a record without a version all
/// mean no update.
pub open spec fn meta_matches(m: ModMeta, name: Seq<char>) -> bool {
    m.title@ == name || m.folder_name@ == name
}

/// The first listing record matching the add-on by title or folder name.
pub open spec fn first_match(listing: Seq<ModMeta>, name: Seq<char>) -> Option<ModMeta>
    decreases listing.len(),
{
    if listing.len() == 0 {
        None
    } else if meta_matches(listing[0], name) {
        Some(listing[0])
    } else {
        first_match(listing.skip(1), name)
    }
}

/// Whether an update is available, judged from the cached listing.
pub open spec fn update_available_spec(
    listing: Seq<ModMeta>,
    name: Seq<char>,
    installed: Seq<char>,
) -> bool {
    if installed.len() == 0 {
        false
    } else {
        match first_match(listing, name) {
            Some(m) => m.version@.len() > 0 && m.version@ != installed,
            None => false,
        }
    }
}

/// Decides from the cached listing whether an update to the named add-on
/// is available.
pub fn update_available(listing: &Vec<ModMeta>, mod_name: &String, installed_version: &String) -> (r:
    bool)
    ensures
        r == update_available_spec(listing@, mod_name@, installed_version@),
{
    if installed_version.as_str().unicode_len() == 0 {
        return false;
    }
    let n = listing.len();
    let mut i: usize = 0;
    proof {
        assert(listing@.skip(0) =~= listing@);
    }
    while i < n
        invariant
            i <= n,
            n == listing@.len(),
            installed_version@.len() > 0,
            first_match(listing@, mod_name@) == first_match(listing@.skip(i as int), mod_name@),
            forall|t: int| 0 <= t < i ==> !meta_matches(listing@[t], mod_name@),
        decreases n - i,
    {
        let m = &listing[i];
        let hit = m.title == *mod_name || m.folder_name == *mod_name;
        proof {
            assert(listing@.skip(i as int)[0] == listing@[i as int]);
            assert(listing@.skip(i as int).skip(1) =~= listing@.skip(i + 1));
        }
        if hit {
            proof {
                assert(first_match(listing@, mod_name@) == Some(listing@[i as int]));
            }
            let remote = &m.version;
            if remote.as_str().unicode_len() == 0 {
                return false;
            }
            let differs = !(*remote == *installed_version);
            return differs;
        }
        i += 1;
    }
    proof {
        assert(listing@.skip(n as int) =~= Seq::<ModMeta>::empty());
    }
    false
}

} // verus!

//! The archive normalizer: decodes a byte stream in one of three container
//! formats into an in-memory entry tree, skips entries that would escape
//! the destination, collapses a single wrapping top-level folder, and
//! validates that the content looks like a real add-on. Callers write the
//! resulting tree to disk.
use vstd::prelude::*;
use vstd::string::*;
use crate::errors::AppError;
use crate::text::ends_with;
use crate::text::is_suffix_of;
use crate::text::trim_end_matches;
use crate::text::trim_suffix_rep;

verus! {

/// The three accepted container formats; anything else is rejected before
/// any decoding.
#[derive(Clone, Copy, Debug, PartialEq, Eq, Structural)]
pub enum ArchiveFormat {
    Zip,
    Tar,
    TarGz,
}

/// One decoded archive entry: its stored relative path, whether it is a
/// directory, and its contents (empty for directories).
pub struct ArchiveEntry {
    pub path: String,
    pub is_dir: bool,
    pub data: Vec<u8>,
}

/// The mathematical shape of an entry: path, directory flag, contents.
pub open spec fn entry_view(e: ArchiveEntry) -> (Seq<char>, bool, Seq<u8>) {
    (e.path@, e.is_dir, e.data@)
}

/// The views of a sequence of entries.
pub open spec fn entries_view(s: Seq<ArchiveEntry>) -> Seq<(Seq<char>, bool, Seq<u8>)> {
    Seq::new(s.len(), |i: int| entry_view(s[i]))
}

/// A `..` path component begins at position `i` of `p`.
pub open spec fn dotdot_at(p: Seq<char>, i: int) -> bool {
    &&& 0 <= i
    &&& i + 2 <= p.len()
    &&& p[i] == '.'
    &&& p[i + 1] == '.'
    &&& (i == 0 || p[i - 1] == '/')
    &&& (i + 2 == p.len() || p[i + 2] == '/')
}

/// A stored entry path that stays inside the destination: non-empty, not
/// absolute, and free of `..` components.
pub open spec fn is_safe_path(p: Seq<char>) -> bool {
    p.len() > 0 && p[0] != '/' && !(exists|i: int| dotdot_at(p, i))
}

/// The entries with safe paths, order kept; unsafe entries are skipped,
/// never fatal.
pub open spec fn sift_v(es: Seq<(Seq<char>, bool, Seq<u8>)>) -> Seq<(Seq<char>, bool, Seq<u8>)>
    decreases es.len(),
{
    if es.len() == 0 {
        Seq::empty()
    } else {
        let rest = sift_v(es.drop_last());
        if is_safe_path(es.last().0) {
            rest.push(es.last())
        } else {
            rest
        }
    }
}

/// Every path the sieve lets through is safe.
pub proof fn lemma_sift_v_safe(es: Seq<(Seq<char>, bool, Seq<u8>)>)
    ensures
        forall|j: int|
            0 <= j < sift_v(es).len() ==> is_safe_path((#[trigger] sift_v(es)[j]).0),
    decreases es.len(),
{
    if es.len() > 0 {
        lemma_sift_v_safe(es.drop_last());
        if is_safe_path(es.last().0) {
            assert(forall|j: int|
                0 <= j < sift_v(es.drop_last()).len() ==> sift_v(es)[j] == sift_v(
                    es.drop_last(),
                )[j]);
            assert(sift_v(es)[sift_v(es).len() - 1] == es.last());
        }
    }
}

/// Whether the stored path keeps an entry inside the destination.
pub fn path_is_safe(s: &str) -> (r: bool)
    ensures
        r == is_safe_path(s@),
{
    let n = s.unicode_len();
    if n == 0 {
        return false;
    }
    if s.get_char(0) == '/' {
        return false;
    }
    if n < 2 {
        proof {
            assert(forall|j: int| dotdot_at(s@, j) ==> 0 <= j && j + 2 <= n);
        }
        return true;
    }
    let mut i: usize = 0;
    while i <= n - 2
        invariant
            i <= n - 1,
            2 <= n,
            n == s@.len(),
            forall|j: int| 0 <= j < i ==> !dotdot_at(s@, j),
        decreases n - i,
    {
        let boundary_before = i == 0 || s.get_char(i - 1) == '/';
        let boundary_after = i + 2 == n || s.get_char(i + 2) == '/';
        if boundary_before && boundary_after && s.get_char(i) == '.' && s.get_char(i + 1) == '.' {
            proof {
                assert(dotdot_at(s@, i as int));
            }
            return false;
        }
        i += 1;
    }
    proof {
        assert(forall|j: int| dotdot_at(s@, j) ==> 0 <= j && j + 2 <= n);
    }
    true
}

/// A byte-for-byte copy.
fn copy_bytes(src: &Vec<u8>) -> (r: Vec<u8>)
    ensures
        r@ == src@,
{
    let n = src.len();
    let mut r: Vec<u8> = Vec::new();
    let mut i: usize = 0;
    while i < n
        invariant
            i <= n,
            n == src@.len(),
            r@ =~= src@.take(i as int),
        decreases n - i,
    {
        r.push(src[i]);
        proof {
            assert(r@ =~= src@.take(i + 1));
        }
        i += 1;
    }
    proof {
        assert(src@.take(n as int) =~= src@);
    }
    r
}

/// A copy of one entry, view for view.
fn copy_entry(e: &ArchiveEntry) -> (r: ArchiveEntry)
    ensures
        entry_view(r) == entry_view(*e),
{
    ArchiveEntry { path: e.path.clone(), is_dir: e.is_dir, data: copy_bytes(&e.data) }
}

/// Keeps the entries whose paths are safe, in order; entries that would
/// resolve outside the destination are skipped.
pub fn sift_entries(entries: &Vec<ArchiveEntry>) -> (r: Vec<ArchiveEntry>)
    ensures
        entries_view(r@) == sift_v(entries_view(entries@)),
{
    let n = entries.len();
    let mut r: Vec<ArchiveEntry> = Vec::new();
    let mut i: usize = 0;
    while i < n
        invariant
            i <= n,
            n == entries@.len(),
            entries_view(r@) == sift_v(entries_view(entries@.take(i as int))),
        decreases n - i,
    {
        let ghost prefix = entries_view(entries@.take(i as int));
        let e = &entries[i];
        let safe = path_is_safe(e.path.as_str());
        if safe {
            let copy = copy_entry(e);
            r.push(copy);
        }
        proof {
            assert(entries_view(entries@.take(i + 1)).drop_last() =~= prefix);
            assert(entries_view(entries@.take(i + 1)).last() == entry_view(
                entries@[i as int],
            ));
            if safe {
                assert(entries_view(r@) =~= sift_v(prefix).push(entry_view(entries@[i as int])));
            } else {
                assert(entries_view(r@) =~= sift_v(prefix));
            }
        }
        i += 1;
    }
    proof {
        assert(entries@.take(n as int) =~= entries@);
        assert(entries_view(entries@.take(n as int)) =~= entries_view(entries@));
    }
    r
}

/// `i` is the position of the first `/` in `p`, or `p`'s length when `p`
/// has none.
pub open spec fn is_first_slash(p: Seq<char>, i: int) -> bool {
    &&& 0 <= i <= p.len()
    &&& (i == p.len() || p[i] == '/')
    &&& forall|j: int| 0 <= j < i ==> p[j] != '/'
}

/// The position of the first `/` in `p`, or `p`'s length.
pub open spec fn first_slash(p: Seq<char>) -> int {
    choose|i: int| is_first_slash(p, i)
}

/// That position is unique.
pub proof fn lemma_first_slash_unique(p: Seq<char>, i: int, j: int)
    requires
        is_first_slash(p, i),
        is_first_slash(p, j),
    ensures
        i == j,
{
    if i < j {
        assert(p[i] != '/');
    }
    if j < i {
        assert(p[j] != '/');
    }
}

/// The top-level name an entry path falls under.
pub open spec fn first_comp(p: Seq<char>) -> Seq<char> {
    p.take(first_slash(p))
}

/// The position of the first `/` in `s`, or its length.
pub fn find_first_slash(s: &str) -> (i: usize)
    ensures
        is_first_slash(s@, i as int),
        first_slash(s@) == i as int,
{
    let n = s.unicode_len();
    let mut i: usize = 0;
    while i < n
        invariant
            i <= n,
            n == s@.len(),
            forall|j: int| 0 <= j < i ==> s@[j] != '/',
        decreases n - i,
    {
        if s.get_char(i) == '/' {
            proof {
                assert(is_first_slash(s@, i as int));
                lemma_first_slash_unique(s@, first_slash(s@), i as int);
            }
            return i;
        }
        i += 1;
    }
    proof {
        assert(is_first_slash(s@, n as int));
        lemma_first_slash_unique(s@, first_slash(s@), n as int);
    }
    n
}

/// The top-level name an entry path falls under, as a fresh string.
pub fn first_component(s: &str) -> (r: String)
    ensures
        r@ == first_comp(s@),
{
    let i = find_first_slash(s);
    let head = s.substring_char(0, i);
    String::from_str(head)
}

/// The collapse heuristic applies: there is at least one entry, every entry
/// falls under one and the same top-level name, and no entry is a plain
/// file at that name itself (the single top-level entry is a directory).
pub open spec fn collapsible(es: Seq<(Seq<char>, bool, Seq<u8>)>) -> bool {
    &&& es.len() > 0
    &&& forall|j: int| 0 <= j < es.len() ==> first_comp(#[trigger] es[j].0) == first_comp(es[0].0)
    &&& forall|j: int| 0 <= j < es.len() ==> !((#[trigger] es[j].0) == first_comp(es[0].0) && !es[j].1)
}

/// The entries with the top-level name `c` stripped: entries that are the
/// wrapper itself go away, every other path loses its `c/` prefix.
pub open spec fn strip_top(
    es: Seq<(Seq<char>, bool, Seq<u8>)>,
    c: Seq<char>,
) -> Seq<(Seq<char>, bool, Seq<u8>)>
    decreases es.len(),
{
    if es.len() == 0 {
        Seq::empty()
    } else {
        let rest = strip_top(es.drop_last(), c);
        let e = es.last();
        if e.0.len() <= c.len() + 1 {
            rest
        } else {
            rest.push((e.0.skip(c.len() as int + 1), e.1, e.2))
        }
    }
}

/// One round of the collapse heuristic: when the whole tree sits inside a
/// single top-level folder, its contents move up and the folder goes away;
/// otherwise the tree is left alone.
pub open spec fn collapse_v(
    es: Seq<(Seq<char>, bool, Seq<u8>)>,
) -> Seq<(Seq<char>, bool, Seq<u8>)> {
    if collapsible(es) {
        strip_top(es, first_comp(es[0].0))
    } else {
        es
    }
}

/// Compares two string slices character by character.
fn str_eq(a: &str, b: &str) -> (r: bool)
    ensures
        r == (a@ == b@),
{
    let n = a.unicode_len();
    if n != b.unicode_len() {
        return false;
    }
    let mut i: usize = 0;
    while i < n
        invariant
            i <= n,
            n == a@.len(),
            n == b@.len(),
            forall|j: int| 0 <= j < i ==> a@[j] == b@[j],
        decreases n - i,
    {
        if a.get_char(i) != b.get_char(i) {
            return false;
        }
        i += 1;
    }
    proof {
        assert(a@ =~= b@);
    }
    true
}

/// Applies the collapse heuristic to a decoded entry tree.
pub fn collapse_entries(entries: &Vec<ArchiveEntry>) -> (r: Vec<ArchiveEntry>)
    ensures
        entries_view(r@) == collapse_v(entries_view(entries@)),
{
    let ghost ev = entries_view(entries@);
    let n = entries.len();
    if n == 0 {
        let r: Vec<ArchiveEntry> = Vec::new();
        proof {
            assert(entries_view(r@) =~= ev);
        }
        return r;
    }
    let top = first_component(entries[0].path.as_str());
    let top_len = top.as_str().unicode_len();
    let mut j: usize = 0;
    let mut can_collapse = true;
    while j < n
        invariant
            j <= n,
            n == entries@.len(),
            n == ev.len(),
            ev == entries_view(entries@),
            top@ == first_comp(ev[0].0),
            can_collapse ==> forall|t: int|
                0 <= t < j ==> first_comp(#[trigger] ev[t].0) == top@ && !(ev[t].0 == top@
                    && !ev[t].1),
            !can_collapse ==> !collapsible(ev),
        decreases n - j,
    {
        let e = &entries[j];
        let fc = first_component(e.path.as_str());
        if !str_eq(fc.as_str(), top.as_str()) {
            proof {
                assert(first_comp(ev[j as int].0) != first_comp(ev[0].0));
            }
            can_collapse = false;
        } else if !e.is_dir && str_eq(e.path.as_str(), top.as_str()) {
            proof {
                assert(ev[j as int].0 == first_comp(ev[0].0) && !ev[j as int].1);
            }
            can_collapse = false;
        }
        j += 1;
    }
    if !can_collapse {
        let mut r: Vec<ArchiveEntry> = Vec::new();
        let mut i: usize = 0;
        while i < n
            invariant
                i <= n,
                n == entries@.len(),
                ev == entries_view(entries@),
                r@.len() == i,
                forall|t: int| 0 <= t < i ==> entry_view(#[trigger] r@[t]) == ev[t],
            decreases n - i,
        {
            let copy = copy_entry(&entries[i]);
            r.push(copy);
            i += 1;
        }
        proof {
            assert(entries_view(r@) =~= ev);
            assert(!collapsible(ev));
        }
        return r;
    }
    proof {
        assert(collapsible(ev));
    }
    let mut r: Vec<ArchiveEntry> = Vec::new();
    let mut i: usize = 0;
    while i < n
        invariant
            i <= n,
            n == entries@.len(),
            ev == entries_view(entries@),
            top@ == first_comp(ev[0].0),
            top_len == top@.len(),
            entries_view(r@) == strip_top(ev.take(i as int), top@),
        decreases n - i,
    {
        let ghost prefix = ev.take(i as int);
        let e = &entries[i];
        let plen = e.path.as_str().unicode_len();
        if top_len < plen && plen - top_len > 1 {
            let tail = e.path.as_str().substring_char(top_len + 1, plen);
            let stripped = ArchiveEntry {
                path: String::from_str(tail),
                is_dir: e.is_dir,
                data: copy_bytes(&e.data),
            };
            r.push(stripped);
            proof {
                assert(ev.take(i + 1).drop_last() =~= prefix);
                assert(ev.take(i + 1).last() == ev[i as int]);
                assert(entry_view(r@[r@.len() - 1]) == (
                    ev[i as int].0.skip(top_len + 1),
                    ev[i as int].1,
                    ev[i as int].2,
                ));
                assert(entries_view(r@) =~= strip_top(prefix, top@).push(
                    (ev[i as int].0.skip(top_len + 1), ev[i as int].1, ev[i as int].2),
                ));
            }
        } else {
            proof {
                assert(ev.take(i + 1).drop_last() =~= prefix);
                assert(ev.take(i + 1).last() == ev[i as int]);
                assert(entries_view(r@) =~= strip_top(prefix, top@));
            }
        }
        i += 1;
    }
    proof {
        assert(ev.take(n as int) =~= ev);
    }
    r
}

/// What decoding a ZIP byte stream yields: its entries, or nothing when
/// the stream is not a readable ZIP archive. A function of the bytes alone.
pub uninterp spec fn zip_entries_of(bytes: Seq<u8>) -> Option<Seq<(Seq<char>, bool, Seq<u8>)>>;

/// What decoding a TAR byte stream yields, a function of the bytes alone.
pub uninterp spec fn tar_entries_of(bytes: Seq<u8>) -> Option<Seq<(Seq<char>, bool, Seq<u8>)>>;

/// What gzip-decompressing a byte stream yields, a function of the bytes
/// alone.
pub uninterp spec fn gunzip_of(bytes: Seq<u8>) -> Option<Seq<u8>>;

/// An archive-stage failure at the named stage.
fn io_err(stage: &str) -> (r: AppError)
    ensures
        r matches AppError::IoFailure(d) && d@ == stage@,
{
    AppError::IoFailure(String::from_str(stage))
}

/// Relies on zip::ZipArchive (new, len, by_index) and the entries' name,
/// is_dir and Read: decodes a ZIP archive held in memory into its entry
/// list; the outcome depends on the bytes alone.
#[verifier::external_body]
fn decode_zip(bytes: &Vec<u8>) -> (r: Result<Vec<ArchiveEntry>, AppError>)
    ensures
        r is Ok <==> zip_entries_of(bytes@) is Some,
        r matches Ok(v) ==> zip_entries_of(bytes@) == Some(entries_view(v@)),
        r matches Err(e) ==> e is IoFailure,
{
    let mut archive = zip::ZipArchive::new(std::io::Cursor::new(bytes.clone()))
        .map_err(|_| io_err("unreadable zip archive"))?;
    let mut out = Vec::new();
    for i in 0..archive.len() {
        let mut f = archive.by_index(i).map_err(|_| io_err("zip entry"))?;
        let (path, is_dir, mut data) = (f.name().to_string(), f.is_dir(), Vec::new());
        if !is_dir {
            std::io::Read::read_to_end(&mut f, &mut data).map_err(|_| io_err("zip entry"))?;
        }
        out.push(ArchiveEntry { path, is_dir, data });
    }
    Ok(out)
}

/// Relies on tar::Archive (new, entries) and the entries' path, header
/// entry type and Read: decodes a TAR archive held in memory into its
/// entry list; the outcome depends on the bytes alone.
#[verifier::external_body]
fn decode_tar(bytes: &Vec<u8>) -> (r: Result<Vec<ArchiveEntry>, AppError>)
    ensures
        r is Ok <==> tar_entries_of(bytes@) is Some,
        r matches Ok(v) ==> tar_entries_of(bytes@) == Some(entries_view(v@)),
        r matches Err(e) ==> e is IoFailure,
{
    let mut archive = tar::Archive::new(std::io::Cursor::new(bytes.clone()));
    let mut out = Vec::new();
    for entry in archive.entries().map_err(|_| io_err("unreadable tar archive"))? {
        let mut entry = entry.map_err(|_| io_err("tar entry"))?;
        let path = entry.path().map_err(|_| io_err("tar path"))?.to_string_lossy().into_owned();
        let (is_dir, mut data) = (entry.header().entry_type().is_dir(), Vec::new());
        if !is_dir {
            std::io::Read::read_to_end(&mut entry, &mut data).map_err(|_| io_err("tar entry"))?;
        }
        out.push(ArchiveEntry { path, is_dir, data });
    }
    Ok(out)
}

/// Relies on flate2::read::GzDecoder with Read::read_to_end: decompresses
/// a gzip byte stream held in memory; the outcome depends on the bytes
/// alone.
#[verifier::external_body]
fn gunzip(bytes: &Vec<u8>) -> (r: Result<Vec<u8>, AppError>)
    ensures
        r is Ok <==> gunzip_of(bytes@) is Some,
        r matches Ok(v) ==> gunzip_of(bytes@) == Some(v@),
        r matches Err(e) ==> e is IoFailure,
{
    let mut decoder = flate2::read::GzDecoder::new(std::io::Cursor::new(bytes.clone()));
    let mut out = Vec::new();
    match std::io::Read::read_to_end(&mut decoder, &mut out) {
        Ok(_) => Ok(out),
        Err(_) => Err(io_err("gzip decode")),
    }
}

/// The entry list a byte stream decodes to under the given format, if it
/// decodes at all.
pub open spec fn decoded_of(format: ArchiveFormat, bytes: Seq<u8>) -> Option<
    Seq<(Seq<char>, bool, Seq<u8>)>,
> {
    match format {
        ArchiveFormat::Zip => zip_entries_of(bytes),
        ArchiveFormat::Tar => tar_entries_of(bytes),
        ArchiveFormat::TarGz => match gunzip_of(bytes) {
            Some(inner) => tar_entries_of(inner),
            None => None,
        },
    }
}

/// The normalized tree a byte stream extracts to: decoded entries with
/// unsafe paths skipped, one wrapping folder collapsed, and the safety
/// sieve applied once more, since collapsing can bare a path (one with an
/// empty leading component) that would escape the destination.
pub open spec fn normalized_of(format: ArchiveFormat, bytes: Seq<u8>) -> Option<
    Seq<(Seq<char>, bool, Seq<u8>)>,
> {
    match decoded_of(format, bytes) {
        Some(es) => Some(sift_v(collapse_v(sift_v(es)))),
        None => None,
    }
}

/// Decodes an archive held in memory and normalizes it: entries that would
/// escape the destination are skipped before and after the collapse of a
/// single wrapping top-level folder, and, when `validate` is set, the
/// result must hold at least one `.lua` file or the whole extraction
/// fails. The disk-sourced ingestion path asks for validation; the
/// memory-buffer ingestion path deliberately does not. A failed
/// extraction hands back no tree, so a caller that writes only what a
/// successful extraction returns leaves no residual destination.
pub fn extract_archive(format: ArchiveFormat, bytes: &Vec<u8>, validate: bool) -> (r: Result<
    Vec<ArchiveEntry>,
    AppError,
>)
    ensures
        r is Ok <==> (normalized_of(format, bytes@) matches Some(es) && (validate
            ==> has_script_file(es))),
        r matches Ok(v) ==> normalized_of(format, bytes@) == Some(entries_view(v@)),
        // nothing the extraction hands out can resolve outside the
        // destination it is written under
        r matches Ok(v) ==> forall|j: int|
            0 <= j < v@.len() ==> is_safe_path((#[trigger] v@[j]).path@),
        r matches Err(e) ==> (if normalized_of(format, bytes@) is None {
            e is IoFailure
        } else {
            e is InvalidInput
        }),
{
    let decoded = match format {
        ArchiveFormat::Zip => decode_zip(bytes),
        ArchiveFormat::Tar => decode_tar(bytes),
        ArchiveFormat::TarGz => {
            match gunzip(bytes) {
                Ok(inner) => decode_tar(&inner),
                Err(e) => Err(e),
            }
        },
    };
    match decoded {
        Ok(entries) => {
            let safe = sift_entries(&entries);
            let collapsed = collapse_entries(&safe);
            let tree = sift_entries(&collapsed);
            proof {
                lemma_sift_v_safe(entries_view(collapsed@));
                assert(forall|j: int|
                    0 <= j < tree@.len() ==> is_safe_path((#[trigger] tree@[j]).path@)) by {
                    assert(forall|j: int|
                        0 <= j < tree@.len() ==> entries_view(tree@)[j] == entry_view(
                            #[trigger] tree@[j],
                        ));
                }
            }
            if validate && !has_lua_file(&tree) {
                Err(
                    AppError::InvalidInput(
                        String::from_str("no script files found in the archive"),
                    ),
                )
            } else {
                Ok(tree)
            }
        },
        Err(e) => Err(e),
    }
}

/// The container format a file name announces, judged by its suffix; a
/// name with none of the accepted suffixes is rejected before any I/O.
pub open spec fn archive_format_of(name: Seq<char>) -> Option<ArchiveFormat> {
    if is_suffix_of(".zip"@, name) {
        Some(ArchiveFormat::Zip)
    } else if is_suffix_of(".tar"@, name) {
        Some(ArchiveFormat::Tar)
    } else if is_suffix_of(".tar.gz"@, name) || is_suffix_of(".tgz"@, name) {
        Some(ArchiveFormat::TarGz)
    } else {
        None
    }
}

/// Judges the container format from the file name's suffix.
pub fn format_for_name(name: &str) -> (r: Option<ArchiveFormat>)
    ensures
        r == archive_format_of(name@),
{
    if ends_with(name, ".zip") {
        Some(ArchiveFormat::Zip)
    } else if ends_with(name, ".tar") {
        Some(ArchiveFormat::Tar)
    } else if ends_with(name, ".tar.gz") || ends_with(name, ".tgz") {
        Some(ArchiveFormat::TarGz)
    } else {
        None
    }
}

/// The add-on name an archive file name carries: the name with every
/// archive suffix trimmed away.
pub open spec fn mod_name_of(name: Seq<char>) -> Seq<char> {
    trim_suffix_rep(
        trim_suffix_rep(
            trim_suffix_rep(trim_suffix_rep(name, ".zip"@), ".tar"@),
            ".tar.gz"@,
        ),
        ".tgz"@,
    )
}

/// Trims the archive suffixes off a file name to recover the add-on name.
pub fn mod_name_for_file(name: &str) -> (r: String)
    ensures
        r@ == mod_name_of(name@),
{
    let a = trim_end_matches(name, ".zip");
    let b = trim_end_matches(a.as_str(), ".tar");
    let c = trim_end_matches(b.as_str(), ".tar.gz");
    trim_end_matches(c.as_str(), ".tgz")
}

/// The path carries the recognized script extension: its last component
/// ends in `.lua` with a proper stem before the dot. A component that is
/// nothing but `.lua` has no extension at all.
pub open spec fn is_script_path(p: Seq<char>) -> bool {
    p.len() > ".lua"@.len() && is_suffix_of(".lua"@, p) && p[p.len() - 5] != '/'
}

/// Some file entry carries the recognized script extension.
pub open spec fn has_script_file(es: Seq<(Seq<char>, bool, Seq<u8>)>) -> bool {
    exists|j: int| 0 <= j < es.len() && !(#[trigger] es[j]).1 && is_script_path(es[j].0)
}

/// Whether at least one file entry is a script file.
pub fn has_lua_file(entries: &Vec<ArchiveEntry>) -> (r: bool)
    ensures
        r == has_script_file(entries_view(entries@)),
{
    let ghost ev = entries_view(entries@);
    let n = entries.len();
    let mut i: usize = 0;
    while i < n
        invariant
            i <= n,
            n == entries@.len(),
            ev == entries_view(entries@),
            forall|j: int| 0 <= j < i ==> !(!(#[trigger] ev[j]).1 && is_script_path(ev[j].0)),
        decreases n - i,
    {
        let e = &entries[i];
        if !e.is_dir && path_is_script(e.path.as_str()) {
            proof {
                assert(!ev[i as int].1 && is_script_path(ev[i as int].0));
            }
            return true;
        }
        i += 1;
    }
    false
}

/// Whether the path names a script file.
pub fn path_is_script(s: &str) -> (r: bool)
    ensures
        r == is_script_path(s@),
{
    proof {
        reveal_strlit(".lua");
    }
    let n = s.unicode_len();
    if n <= 4 {
        return false;
    }
    if !ends_with(s, ".lua") {
        return false;
    }
    s.get_char(n - 5) != '/'
}

} // verus!

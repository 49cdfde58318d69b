//! The installed-mod registry: the set of tracked add-ons, their declared
//! dependencies, the derived dependents relation, ordinary and cascading
//! removal, and reindexing against the filesystem.
//!
//! The registry is a pure in-memory model; callers perform the filesystem
//! actions that a removal implies and feed back what exists on disk.
use vstd::prelude::*;
use vstd::string::*;
use crate::errors::AppError;
use crate::text::eq_ignore_ascii_case;
use crate::text::seq_eq_ci;

verus! {

/// One row per tracked add-on.
pub struct InstalledMod {
    /// Unique identifier; two reserved names act as framework roles.
    pub name: String,
    /// Absolute filesystem location of the add-on's root directory or file.
    pub path: String,
    /// Names this add-on requires; may reference framework names.
    pub dependencies: Vec<String>,
    /// Version string; `None` means unknown or unversioned.
    pub current_version: Option<String>,
}

/// `x` is one of the names in `names`.
pub open spec fn name_in(names: Seq<Seq<char>>, x: Seq<char>) -> bool {
    exists|i: int| 0 <= i < names.len() && names[i] == x
}

/// The views of a sequence of strings.
pub open spec fn names_seq(v: Seq<String>) -> Seq<Seq<char>> {
    Seq::new(v.len(), |i: int| v[i]@)
}

/// Row `m` declares `dep` among its dependencies.
pub open spec fn lists_dep(m: InstalledMod, dep: Seq<char>) -> bool {
    exists|i: int| 0 <= i < m.dependencies@.len() && m.dependencies@[i]@ == dep
}

/// Row `m` is a real dependent of `name`: it declares `name` and is not the
/// row of `name` itself (self-loops in malformed data never count).
pub open spec fn is_dependent_row(m: InstalledMod, name: Seq<char>) -> bool {
    lists_dep(m, name) && m.name@ != name
}

/// Some row in `rows` carries `name`.
pub open spec fn contains_name(rows: Seq<InstalledMod>, name: Seq<char>) -> bool {
    exists|i: int| 0 <= i < rows.len() && rows[i].name@ == name
}

/// No two rows share a name.
pub open spec fn unique_names(rows: Seq<InstalledMod>) -> bool {
    forall|i: int, j: int| 0 <= i < j < rows.len() ==> rows[i].name@ != rows[j].name@
}

/// The names of the real dependents of `name`, in row order.
pub open spec fn dependent_names(rows: Seq<InstalledMod>, name: Seq<char>) -> Seq<Seq<char>>
    decreases rows.len(),
{
    if rows.len() == 0 {
        Seq::empty()
    } else {
        let rest = dependent_names(rows.drop_last(), name);
        if is_dependent_row(rows.last(), name) {
            rest.push(rows.last().name@)
        } else {
            rest
        }
    }
}

/// `rows` with every row named `name` taken out, order kept.
pub open spec fn remove_named(rows: Seq<InstalledMod>, name: Seq<char>) -> Seq<InstalledMod>
    decreases rows.len(),
{
    if rows.len() == 0 {
        Seq::empty()
    } else {
        let rest = remove_named(rows.drop_last(), name);
        if rows.last().name@ == name {
            rest
        } else {
            rest.push(rows.last())
        }
    }
}

/// `rows` with every row whose name is in `gone` taken out, order kept.
pub open spec fn filter_out(rows: Seq<InstalledMod>, gone: Seq<Seq<char>>) -> Seq<InstalledMod>
    decreases rows.len(),
{
    if rows.len() == 0 {
        Seq::empty()
    } else {
        let rest = filter_out(rows.drop_last(), gone);
        if name_in(gone, rows.last().name@) {
            rest
        } else {
            rest.push(rows.last())
        }
    }
}

/// What `dependent_names` yields: names of real dependent rows, nothing
/// else, and all of them.
pub proof fn lemma_dependent_names_props(rows: Seq<InstalledMod>, name: Seq<char>)
    ensures
        forall|j: int|
            #![trigger dependent_names(rows, name)[j]]
            0 <= j < dependent_names(rows, name).len() ==> dependent_names(rows, name)[j] != name
                && depends_on(rows, dependent_names(rows, name)[j], name),
        forall|i: int|
            0 <= i < rows.len() && is_dependent_row(#[trigger] rows[i], name) ==> name_in(
                dependent_names(rows, name),
                rows[i].name@,
            ),
    decreases rows.len(),
{
    if rows.len() > 0 {
        let prefix = rows.drop_last();
        let dn_prefix = dependent_names(prefix, name);
        let dn = dependent_names(rows, name);
        lemma_dependent_names_props(prefix, name);
        assert(forall|i: int| 0 <= i < prefix.len() ==> prefix[i] == rows[i]);
        assert(forall|x: Seq<char>| depends_on(prefix, x, name) ==> depends_on(rows, x, name))
            by {
            assert(forall|i: int|
                0 <= i < prefix.len() && prefix[i].name@ == prefix[i].name@ ==> prefix[i]
                    == rows[i]);
        }
        if is_dependent_row(rows.last(), name) {
            assert(dn == dn_prefix.push(rows.last().name@));
            assert(dn[dn.len() - 1] == rows.last().name@);
            assert(rows[rows.len() - 1] == rows.last());
            assert(depends_on(rows, rows.last().name@, name)) by {
                assert(rows[rows.len() - 1].name@ == rows.last().name@ && is_dependent_row(
                    rows[rows.len() - 1],
                    name,
                ));
            }
            assert(forall|j: int| 0 <= j < dn_prefix.len() ==> dn[j] == dn_prefix[j]);
        } else {
            assert(dn == dn_prefix);
        }
        assert(forall|x: Seq<char>| name_in(dn_prefix, x) ==> name_in(dn, x)) by {
            assert(forall|t: int| 0 <= t < dn_prefix.len() ==> dn[t] == dn_prefix[t]);
        }
    }
}

/// A direct dependency edge: the row of `dependent` declares `dependency`.
pub open spec fn depends_on(
    rows: Seq<InstalledMod>,
    dependent: Seq<char>,
    dependency: Seq<char>,
) -> bool {
    exists|i: int|
        0 <= i < rows.len() && rows[i].name@ == dependent && is_dependent_row(
            rows[i],
            dependency,
        )
}

/// `x` is reachable from `root` along reversed dependency edges in at most
/// `n` steps: `x` depends (transitively) on `root`, or is `root` itself.
pub open spec fn cascade_reach(
    rows: Seq<InstalledMod>,
    root: Seq<char>,
    x: Seq<char>,
    n: nat,
) -> bool
    decreases n,
{
    if x == root {
        true
    } else if n == 0 {
        false
    } else {
        exists|mid: Seq<char>|
            cascade_reach(rows, root, mid, (n - 1) as nat) && depends_on(rows, x, mid)
    }
}

/// `x` belongs to the cascade of `root`: it is `root` or transitively
/// depends on it.
pub open spec fn in_cascade(rows: Seq<InstalledMod>, root: Seq<char>, x: Seq<char>) -> bool {
    exists|n: nat| cascade_reach(rows, root, x, n)
}

/// The rows whose flag is set, order kept; used by reindexing, where a
/// row's flag says that its path still exists on disk.
pub open spec fn keep_flagged(rows: Seq<InstalledMod>, flags: Seq<bool>) -> Seq<InstalledMod>
    recommends
        rows.len() == flags.len(),
    decreases rows.len(),
{
    if rows.len() == 0 {
        Seq::empty()
    } else {
        let rest = keep_flagged(rows.skip(1), flags.skip(1));
        if flags[0] {
            seq![rows[0]] + rest
        } else {
            rest
        }
    }
}

/// The names of `rows`, in order.
pub open spec fn row_names(rows: Seq<InstalledMod>) -> Seq<Seq<char>> {
    Seq::new(rows.len(), |i: int| rows[i].name@)
}

/// Removing one row keeps the names unique.
pub proof fn lemma_remove_keeps_unique(rows: Seq<InstalledMod>, i: int)
    requires
        unique_names(rows),
        0 <= i < rows.len(),
    ensures
        unique_names(rows.remove(i)),
{
    let r = rows.remove(i);
    assert(forall|a: int, b: int| 0 <= a < b < r.len() ==> r[a].name@ != r[b].name@) by {
        assert(forall|t: int| 0 <= t < i ==> r[t] == rows[t]);
        assert(forall|t: int| i <= t < r.len() ==> r[t] == rows[t + 1]);
    }
}

/// Membership in a pushed name list.
pub proof fn lemma_name_in_push(names: Seq<Seq<char>>, x: Seq<char>, y: Seq<char>)
    ensures
        name_in(names.push(x), y) <==> (name_in(names, y) || y == x),
{
    assert(names.push(x)[names.len() as int] == x);
    assert(forall|t: int| 0 <= t < names.len() ==> names.push(x)[t] == names[t]);
    if name_in(names.push(x), y) {
        let t = choose|t: int| 0 <= t < names.push(x).len() && names.push(x)[t] == y;
        if t < names.len() {
            assert(names[t] == y);
        }
    }
}

/// A filter that strikes out nothing leaves the rows as they were.
pub proof fn lemma_filter_out_all_kept(rows: Seq<InstalledMod>, gone: Seq<Seq<char>>)
    requires
        forall|i: int| 0 <= i < rows.len() ==> !name_in(gone, #[trigger] rows[i].name@),
    ensures
        filter_out(rows, gone) == rows,
    decreases rows.len(),
{
    if rows.len() > 0 {
        lemma_filter_out_all_kept(rows.drop_last(), gone);
        assert(filter_out(rows, gone) =~= rows);
    } else {
        assert(filter_out(rows, gone) =~= rows);
    }
}

/// Removing an absent name changes nothing.
pub proof fn lemma_remove_named_absent(rows: Seq<InstalledMod>, x: Seq<char>)
    requires
        !contains_name(rows, x),
    ensures
        remove_named(rows, x) == rows,
    decreases rows.len(),
{
    if rows.len() > 0 {
        assert(!contains_name(rows.drop_last(), x)) by {
            assert(forall|i: int| 0 <= i < rows.len() - 1 ==> rows.drop_last()[i] == rows[i]);
        }
        lemma_remove_named_absent(rows.drop_last(), x);
        assert(rows[rows.len() - 1].name@ != x);
        assert(remove_named(rows, x) =~= rows);
    } else {
        assert(remove_named(rows, x) =~= rows);
    }
}

/// With unique names, removing by name is removing the one row that
/// carries it.
pub proof fn lemma_remove_named_at(rows: Seq<InstalledMod>, i: int)
    requires
        unique_names(rows),
        0 <= i < rows.len(),
    ensures
        remove_named(rows, rows[i].name@) == rows.remove(i),
    decreases rows.len(),
{
    let x = rows[i].name@;
    let prefix = rows.drop_last();
    if i == rows.len() - 1 {
        assert(!contains_name(prefix, x)) by {
            assert(forall|t: int| 0 <= t < prefix.len() ==> prefix[t] == rows[t]);
        }
        lemma_remove_named_absent(prefix, x);
        assert(remove_named(rows, x) == prefix);
        assert(rows.remove(i) =~= prefix);
    } else {
        assert(forall|t: int| 0 <= t < prefix.len() ==> prefix[t] == rows[t]);
        assert(unique_names(prefix));
        lemma_remove_named_at(prefix, i);
        assert(rows.last().name@ != x);
        assert(remove_named(rows, x) == prefix.remove(i).push(rows.last()));
        assert(rows.remove(i) =~= prefix.remove(i).push(rows.last()));
    }
}

/// Striking one more name out of the filter removes exactly its rows.
pub proof fn lemma_filter_out_push(rows: Seq<InstalledMod>, gone: Seq<Seq<char>>, x: Seq<char>)
    ensures
        filter_out(rows, gone.push(x)) == remove_named(filter_out(rows, gone), x),
    decreases rows.len(),
{
    if rows.len() > 0 {
        let prefix = rows.drop_last();
        let last = rows.last();
        lemma_filter_out_push(prefix, gone, x);
        lemma_name_in_push(gone, x, last.name@);
        let fo = filter_out(prefix, gone);
        if name_in(gone, last.name@) {
        } else if last.name@ == x {
            assert(fo.push(last).drop_last() =~= fo);
            assert(fo.push(last).last() == last);
            assert(remove_named(fo.push(last), x) == remove_named(fo, x));
        } else {
            assert(fo.push(last).drop_last() =~= fo);
            assert(fo.push(last).last() == last);
            assert(remove_named(fo.push(last), x) == remove_named(fo, x).push(last));
        }
    }
}

/// What `filter_out` yields: rows of the input whose names were not struck
/// out, all of them, and still uniquely named.
pub proof fn lemma_filter_out_props(rows: Seq<InstalledMod>, gone: Seq<Seq<char>>)
    ensures
        forall|j: int|
            #![trigger filter_out(rows, gone)[j]]
            0 <= j < filter_out(rows, gone).len() ==> !name_in(
                gone,
                filter_out(rows, gone)[j].name@,
            ) && exists|i: int|
                #![trigger rows[i]]
                0 <= i < rows.len() && filter_out(rows, gone)[j] == rows[i],
        forall|x: Seq<char>|
            contains_name(rows, x) && !name_in(gone, x) ==> contains_name(
                filter_out(rows, gone),
                x,
            ),
        unique_names(rows) ==> unique_names(filter_out(rows, gone)),
    decreases rows.len(),
{
    let fo = filter_out(rows, gone);
    if rows.len() > 0 {
        let prefix = rows.drop_last();
        let last = rows.last();
        let fp = filter_out(prefix, gone);
        lemma_filter_out_props(prefix, gone);
        assert(forall|t: int| 0 <= t < prefix.len() ==> prefix[t] == rows[t]);
        assert(rows[rows.len() - 1] == last);
        if name_in(gone, last.name@) {
            assert(fo == fp);
            assert(forall|x: Seq<char>|
                contains_name(rows, x) && !name_in(gone, x) ==> contains_name(fo, x)) by {
                assert(forall|x: Seq<char>|
                    contains_name(rows, x) && x != last.name@ ==> contains_name(prefix, x));
            }
        } else {
            assert(fo == fp.push(last));
            assert(fo[fo.len() - 1] == last);
            assert(forall|t: int| 0 <= t < fp.len() ==> fo[t] == fp[t]);
            assert(forall|x: Seq<char>|
                contains_name(rows, x) && !name_in(gone, x) ==> contains_name(fo, x)) by {
                assert(forall|x: Seq<char>|
                    contains_name(rows, x) && x != last.name@ ==> contains_name(prefix, x));
                assert(forall|x: Seq<char>|
                    contains_name(fp, x) ==> contains_name(fo, x));
                assert(contains_name(fo, last.name@));
            }
            if unique_names(rows) {
                assert(unique_names(prefix));
                assert(unique_names(fo)) by {
                    assert(forall|a: int|
                        0 <= a < fp.len() ==> fo[a].name@ != last.name@) by {
                        assert(forall|a: int|
                            #![trigger fp[a]]
                            0 <= a < fp.len() ==> exists|i: int|
                                #![trigger prefix[i]]
                                0 <= i < prefix.len() && fp[a] == prefix[i]);
                    }
                }
            }
        }
    }
}

/// A node other than the root that reaches the root has a row: it stands
/// as the dependent of some edge.
pub proof fn lemma_reach_has_row(rows: Seq<InstalledMod>, root: Seq<char>, y: Seq<char>, k: nat)
    requires
        cascade_reach(rows, root, y, k),
        y != root,
    ensures
        contains_name(rows, y),
{
    let mid = choose|mid: Seq<char>|
        cascade_reach(rows, root, mid, (k - 1) as nat) && depends_on(rows, y, mid);
    assert(depends_on(rows, y, mid));
}

/// The cascade grows along dependency edges.
pub proof fn lemma_in_cascade_extend(
    rows: Seq<InstalledMod>,
    root: Seq<char>,
    c: Seq<char>,
    d: Seq<char>,
)
    requires
        in_cascade(rows, root, c),
        depends_on(rows, d, c),
    ensures
        in_cascade(rows, root, d),
{
    let n = choose|n: nat| cascade_reach(rows, root, c, n);
    assert(cascade_reach(rows, root, d, n + 1));
}

/// Completeness of the cascade work-list: once the work-list has drained,
/// every node of the cascade that had a row has been removed. `fin` is the
/// remaining registry, `removed` the names struck out, `visited` the names
/// the work-list processed.
pub proof fn lemma_cascade_complete(
    orig: Seq<InstalledMod>,
    root: Seq<char>,
    x: Seq<char>,
    n: nat,
    removed: Seq<Seq<char>>,
    visited: Seq<Seq<char>>,
    fin: Seq<InstalledMod>,
)
    requires
        unique_names(orig),
        contains_name(orig, root),
        cascade_reach(orig, root, x, n),
        fin == filter_out(orig, removed),
        name_in(visited, root),
        forall|v: Seq<char>| name_in(visited, v) ==> !contains_name(fin, v),
        forall|j: int, v: Seq<char>|
            0 <= j < fin.len() && name_in(removed, v) && #[trigger] is_dependent_row(
                fin[j],
                v,
            ) ==> name_in(visited, fin[j].name@),
    ensures
        contains_name(orig, x) ==> name_in(removed, x),
    decreases n,
{
    lemma_filter_out_props(orig, removed);
    if x == root {
        if contains_name(orig, x) && !name_in(removed, x) {
            assert(contains_name(fin, x));
            assert(false);
        }
    } else if n > 0 {
        let mid = choose|mid: Seq<char>|
            cascade_reach(orig, root, mid, (n - 1) as nat) && depends_on(orig, x, mid);
        if mid != root {
            lemma_reach_has_row(orig, root, mid, (n - 1) as nat);
        }
        lemma_cascade_complete(orig, root, mid, (n - 1) as nat, removed, visited, fin);
        assert(name_in(removed, mid));
        if contains_name(orig, x) && !name_in(removed, x) {
            assert(contains_name(fin, x));
            let j = choose|j: int| 0 <= j < fin.len() && fin[j].name@ == x;
            let i = choose|i: int|
                #![trigger orig[i]]
                0 <= i < orig.len() && fin[j] == orig[i];
            let i0 = choose|i0: int|
                0 <= i0 < orig.len() && orig[i0].name@ == x && is_dependent_row(orig[i0], mid);
            assert(orig[i].name@ == x);
            assert(i == i0) by {
                if i != i0 {
                    assert(orig[i].name@ != orig[i0].name@);
                }
            }
            assert(is_dependent_row(fin[j], mid));
            assert(name_in(visited, x));
            assert(!contains_name(fin, x));
            assert(false);
        }
    } else {
        assert(false);
    }
}

/// Cascade uninstall is idempotent on a fully-uninstalled subtree: once a
/// cascade for `root` has completed — `r1` is what is left, `removed1`
/// what was struck out — the root has no row any more. By
/// `cascade_uninstall`'s contract a second cascade for the same root
/// therefore removes nothing, leaves the registry unchanged, and cannot
/// error, since a missing node is skipped.
pub proof fn lemma_cascade_idempotent(
    orig: Seq<InstalledMod>,
    root: Seq<char>,
    removed1: Seq<Seq<char>>,
    r1: Seq<InstalledMod>,
)
    requires
        unique_names(orig),
        r1 == filter_out(orig, removed1),
        contains_name(orig, root) ==> name_in(removed1, root),
    ensures
        !contains_name(r1, root),
{
    lemma_filter_out_props(orig, removed1);
    if contains_name(r1, root) {
        let j = choose|j: int| 0 <= j < r1.len() && r1[j].name@ == root;
        assert(!name_in(removed1, r1[j].name@));
        let i = choose|i: int| #![trigger orig[i]] 0 <= i < orig.len() && r1[j] == orig[i];
        assert(orig[i].name@ == root);
        assert(contains_name(orig, root));
        assert(false);
    }
}

/// `name` fills one of the two reserved framework roles, compared ignoring
/// ASCII case.
pub open spec fn is_framework(name: Seq<char>) -> bool {
    seq_eq_ci(name, "steamodded"@) || seq_eq_ci(name, "talisman"@)
}

/// Whether `name` names one of the two frameworks.
pub fn is_framework_name(name: &String) -> (r: bool)
    ensures
        r == is_framework(name@),
{
    eq_ignore_ascii_case(name.as_str(), "steamodded") || eq_ignore_ascii_case(
        name.as_str(),
        "talisman",
    )
}

/// The set of installed add-ons, keyed by unique name.
pub struct Registry {
    mods: Vec<InstalledMod>,
}

impl Registry {
    /// The rows, as a mathematical sequence.
    pub closed spec fn rows(&self) -> Seq<InstalledMod> {
        self.mods@
    }

    /// Well-formed: no two rows share a name.
    pub open spec fn wf(&self) -> bool {
        unique_names(self.rows())
    }

    /// An empty registry.
    pub fn new() -> (r: Registry)
        ensures
            r.rows() == Seq::<InstalledMod>::empty(),
            r.wf(),
    {
        Registry { mods: Vec::new() }
    }

    /// Builds a registry from persisted rows; refused when two rows share
    /// a name.
    pub fn try_from_rows(rows: Vec<InstalledMod>) -> (r: Option<Registry>)
        ensures
            match r {
                Some(reg) => reg.wf() && reg.rows() == rows@,
                None => !unique_names(rows@),
            },
    {
        let n = rows.len();
        let mut i: usize = 0;
        while i < n
            invariant
                i <= n,
                n == rows@.len(),
                forall|a: int, b: int| 0 <= a < b < i ==> rows@[a].name@ != rows@[b].name@,
            decreases n - i,
        {
            let mut j: usize = 0;
            while j < i
                invariant
                    j <= i < n,
                    n == rows@.len(),
                    forall|b: int| 0 <= b < j ==> rows@[b].name@ != rows@[i as int].name@,
                decreases i - j,
            {
                if rows[j].name == rows[i].name {
                    proof {
                        assert(!unique_names(rows@)) by {
                            assert(rows@[j as int].name@ == rows@[i as int].name@);
                        }
                    }
                    return None;
                }
                j += 1;
            }
            i += 1;
        }
        Some(Registry { mods: rows })
    }

    /// Read access to the rows.
    pub fn mods(&self) -> (r: &Vec<InstalledMod>)
        ensures
            r@ == self.rows(),
    {
        &self.mods
    }

    /// The number of rows.
    pub fn len(&self) -> (r: usize)
        ensures
            r == self.rows().len(),
    {
        self.mods.len()
    }

    /// The index of the row named `name`, if any.
    pub fn find(&self, name: &String) -> (r: Option<usize>)
        ensures
            match r {
                Some(i) => i < self.rows().len() && self.rows()[i as int].name@ == name@,
                None => !contains_name(self.rows(), name@),
            },
    {
        let n = self.mods.len();
        let mut i: usize = 0;
        while i < n
            invariant
                i <= n,
                n == self.rows().len(),
                forall|j: int| 0 <= j < i ==> self.rows()[j].name@ != name@,
            decreases n - i,
        {
            if self.mods[i].name == *name {
                return Some(i);
            }
            i += 1;
        }
        None
    }

    /// Records an install: replaces the row named as `m` if one exists,
    /// otherwise appends `m`.
    pub fn upsert(&mut self, m: InstalledMod)
        requires
            old(self).wf(),
        ensures
            final(self).wf(),
            contains_name(old(self).rows(), m.name@) ==> exists|i: int|
                0 <= i < old(self).rows().len() && old(self).rows()[i].name@ == m.name@
                    && final(self).rows() == old(self).rows().update(i, m),
            !contains_name(old(self).rows(), m.name@) ==> final(self).rows() == old(
                self,
            ).rows().push(m),
    {
        let r = self.find(&m.name);
        match r {
            Some(i) => {
                self.mods.set(i, m);
                proof {
                    assert(final(self).wf()) by {
                        assert(forall|a: int, b: int|
                            0 <= a < b < self.rows().len() ==> self.rows()[a].name@
                                != self.rows()[b].name@);
                    }
                }
            },
            None => {
                self.mods.push(m);
            },
        }
    }

    /// The names of the real dependents of `name`: every row that declares
    /// `name` as a dependency, excluding `name` itself.
    pub fn dependents_of(&self, name: &String) -> (r: Vec<String>)
        ensures
            names_seq(r@) == dependent_names(self.rows(), name@),
            // the result never includes `name` itself, even if a malformed
            // row lists itself as its own dependency
            forall|j: int|
                #![trigger r@[j]]
                0 <= j < r@.len() ==> r@[j]@ != name@ && depends_on(self.rows(), r@[j]@, name@),
            // completeness: every real dependent row is returned
            forall|i: int|
                0 <= i < self.rows().len() && is_dependent_row(#[trigger] self.rows()[i], name@)
                    ==> name_in(names_seq(r@), self.rows()[i].name@),
    {
        let n = self.mods.len();
        let mut r: Vec<String> = Vec::new();
        let mut i: usize = 0;
        while i < n
            invariant
                i <= n,
                n == self.rows().len(),
                names_seq(r@) == dependent_names(self.rows().take(i as int), name@),
            decreases n - i,
        {
            let ghost prefix = self.rows().take(i as int);
            let m = &self.mods[i];
            let hit = if m.name == *name {
                false
            } else {
                Self::lists_dependency(m, name)
            };
            if hit {
                r.push(m.name.clone());
            }
            proof {
                assert(self.rows().take(i + 1).drop_last() =~= prefix);
                assert(self.rows().take(i + 1).last() == self.rows()[i as int]);
                if hit {
                    assert(r@[r@.len() - 1]@ == self.rows()[i as int].name@);
                    assert(names_seq(r@) =~= dependent_names(prefix, name@).push(
                        self.rows()[i as int].name@,
                    ));
                } else {
                    assert(names_seq(r@) =~= dependent_names(prefix, name@));
                }
            }
            i += 1;
        }
        proof {
            assert(self.rows().take(n as int) =~= self.rows());
            lemma_dependent_names_props(self.rows(), name@);
            assert(forall|j: int|
                0 <= j < r@.len() ==> names_seq(r@)[j] == #[trigger] r@[j]@);
        }
        r
    }

    /// Ordinary removal. A non-framework row may always be removed; a
    /// framework row only when it has no real dependents. Returns the
    /// on-disk path whose deletion the removal implies; the registry itself
    /// performs no filesystem action.
    pub fn uninstall_one(&mut self, name: &String) -> (r: Result<String, AppError>)
        requires
            old(self).wf(),
        ensures
            final(self).wf(),
            // success is owed exactly when the row exists and no framework
            // conflict blocks it
            r is Ok <==> (contains_name(old(self).rows(), name@) && !(is_framework(name@)
                && dependent_names(old(self).rows(), name@).len() > 0)),
            match r {
                Ok(path) => exists|i: int|
                    #![trigger old(self).rows()[i]]
                    0 <= i < old(self).rows().len() && old(self).rows()[i].name@ == name@ && path@
                        == old(self).rows()[i].path@ && final(self).rows() == old(
                        self,
                    ).rows().remove(i),
                Err(e) => final(self).rows() == old(self).rows() && match e {
                    AppError::Conflict { name: n, dependents: d } => n@ == name@ && is_framework(
                        name@,
                    ) && d as nat == dependent_names(old(self).rows(), name@).len() && d > 0,
                    AppError::NotFound(n) => n@ == name@ && !contains_name(
                        old(self).rows(),
                        name@,
                    ) && !(is_framework(name@) && dependent_names(old(self).rows(), name@).len()
                        > 0),
                    _ => false,
                },
            },
    {
        if is_framework_name(name) {
            let deps = self.dependents_of(name);
            if deps.len() > 0 {
                return Err(
                    AppError::Conflict { name: name.clone(), dependents: deps.len() as u64 },
                );
            }
        }
        let idx = self.find(name);
        match idx {
            None => Err(AppError::NotFound(name.clone())),
            Some(i) => {
                let ghost before = self.rows();
                let row = self.mods.remove(i);
                proof {
                    lemma_remove_keeps_unique(before, i as int);
                }
                Ok(row.path)
            },
        }
    }

    /// Forced removal: strikes the row out whatever its dependents, as the
    /// interface's force option does. Returns the on-disk path whose
    /// deletion the removal implies.
    pub fn force_remove(&mut self, name: &String) -> (r: Result<String, AppError>)
        requires
            old(self).wf(),
        ensures
            final(self).wf(),
            r is Ok <==> contains_name(old(self).rows(), name@),
            match r {
                Ok(path) => exists|i: int|
                    #![trigger old(self).rows()[i]]
                    0 <= i < old(self).rows().len() && old(self).rows()[i].name@ == name@ && path@
                        == old(self).rows()[i].path@ && final(self).rows() == old(
                        self,
                    ).rows().remove(i),
                Err(e) => final(self).rows() == old(self).rows() && (e matches AppError::NotFound(
                    n,
                ) && n@ == name@),
            },
    {
        let idx = self.find(name);
        match idx {
            None => Err(AppError::NotFound(name.clone())),
            Some(i) => {
                let ghost before = self.rows();
                let row = self.mods.remove(i);
                proof {
                    lemma_remove_keeps_unique(before, i as int);
                }
                Ok(row.path)
            },
        }
    }

    /// Drops every row whose `path` no longer exists on disk, judging by the
    /// caller-supplied existence flag for each row, and reports how many
    /// rows were cleaned. Touches the record store only, never the
    /// filesystem.
    pub fn reindex(&mut self, exists_on_disk: &Vec<bool>) -> (cleaned: usize)
        requires
            old(self).wf(),
            exists_on_disk@.len() == old(self).rows().len(),
        ensures
            final(self).wf(),
            final(self).rows() == keep_flagged(old(self).rows(), exists_on_disk@),
            cleaned + final(self).rows().len() == old(self).rows().len(),
    {
        let ghost orig = old(self).rows();
        let ghost flags = exists_on_disk@;
        let n = self.mods.len();
        let mut i: usize = n;
        while i > 0
            invariant
                i <= n,
                orig == old(self).rows(),
                flags == exists_on_disk@,
                n == orig.len(),
                n == flags.len(),
                self.wf(),
                self.rows().len() <= n,
                self.rows() =~= orig.take(i as int) + keep_flagged(
                    orig.skip(i as int),
                    flags.skip(i as int),
                ),
            decreases i,
        {
            let ghost before = self.rows();
            i -= 1;
            if !exists_on_disk[i] {
                let _ = self.mods.remove(i);
                proof {
                    lemma_remove_keeps_unique(before, i as int);
                }
            }
            proof {
                assert(orig.skip(i as int)[0] == orig[i as int]);
                assert(orig.skip(i as int).skip(1) =~= orig.skip(i + 1));
                assert(flags.skip(i as int).skip(1) =~= flags.skip(i + 1));
                assert(orig.take(i + 1) =~= orig.take(i as int) + seq![orig[i as int]]);
                if flags[i as int] {
                    assert(keep_flagged(orig.skip(i as int), flags.skip(i as int)) == seq![
                        orig[i as int],
                    ] + keep_flagged(orig.skip(i + 1), flags.skip(i + 1)));
                    assert(self.rows() =~= orig.take(i as int) + keep_flagged(
                        orig.skip(i as int),
                        flags.skip(i as int),
                    ));
                } else {
                    assert(keep_flagged(orig.skip(i as int), flags.skip(i as int)) == keep_flagged(
                        orig.skip(i + 1),
                        flags.skip(i + 1),
                    ));
                    assert(self.rows() =~= before.remove(i as int));
                    assert(self.rows() =~= orig.take(i as int) + keep_flagged(
                        orig.skip(i as int),
                        flags.skip(i as int),
                    ));
                }
            }
        }
        proof {
            assert(orig.take(0) =~= Seq::<InstalledMod>::empty());
            assert(orig.skip(0) =~= orig);
            assert(flags.skip(0) =~= flags);
            assert(self.rows() =~= keep_flagged(orig, flags));
        }
        n - self.mods.len()
    }

    /// Cascading removal: strikes out `root` and, transitively, every row
    /// that depends on it, following a work-list with a visited set so that
    /// diamond shapes and even cycles terminate. Returns the removed rows in
    /// removal order; the caller deletes their on-disk paths. A node already
    /// gone is skipped, never an error.
    pub fn cascade_uninstall(&mut self, root: &String) -> (removed: Vec<InstalledMod>)
        requires
            old(self).wf(),
        ensures
            final(self).wf(),
            final(self).rows() == filter_out(old(self).rows(), row_names(removed@)),
            // every row is accounted for: kept or removed, never both
            final(self).rows().len() + removed@.len() == old(self).rows().len(),
            // the removed names are distinct
            forall|a: int, b: int|
                0 <= a < b < removed@.len() ==> removed@[a].name@ != removed@[b].name@,
            // soundness: every removed row was installed and belongs to the
            // cascade of `root`
            forall|j: int|
                #![trigger removed@[j]]
                0 <= j < removed@.len() ==> in_cascade(old(self).rows(), root@, removed@[j].name@)
                    && exists|i: int|
                    #![trigger old(self).rows()[i]]
                    0 <= i < old(self).rows().len() && removed@[j] == old(self).rows()[i],
            // completeness: if the root was installed, every installed node
            // of its cascade has been removed
            contains_name(old(self).rows(), root@) ==> forall|x: Seq<char>|
                #[trigger] in_cascade(old(self).rows(), root@, x) && contains_name(
                    old(self).rows(),
                    x,
                ) ==> name_in(row_names(removed@), x),
            // a root that was never installed leaves the registry untouched
            !contains_name(old(self).rows(), root@) ==> final(self).rows() == old(self).rows()
                && removed@.len() == 0,
    {
        let ghost orig = old(self).rows();
        let mut removed: Vec<InstalledMod> = Vec::new();
        let mut visited: Vec<String> = Vec::new();
        let mut worklist: Vec<String> = Vec::new();
        worklist.push(root.clone());
        proof {
            lemma_filter_out_all_kept(orig, row_names(removed@));
            assert(names_seq(worklist@)[0] == root@);
            assert(cascade_reach(orig, root@, root@, 0));
            assert(in_cascade(orig, root@, root@));
            assert(forall|j: int| 0 <= j < worklist@.len() ==> #[trigger] worklist@[j]@ == root@);
        }
        while worklist.len() > 0
            invariant
                orig == old(self).rows(),
                unique_names(orig),
                self.wf(),
                self.rows() == filter_out(orig, row_names(removed@)),
                self.rows().len() + removed@.len() == orig.len(),
                // work-list and visited names lie in the cascade
                forall|j: int|
                    0 <= j < worklist@.len() ==> in_cascade(orig, root@, #[trigger] worklist@[j]@),
                forall|j: int|
                    0 <= j < visited@.len() ==> in_cascade(orig, root@, #[trigger] visited@[j]@),
                // a visited name has no row any more
                forall|j: int|
                    0 <= j < visited@.len() ==> !contains_name(
                        self.rows(),
                        #[trigger] visited@[j]@,
                    ),
                // removed rows come from the original registry, their names
                // were visited, and they are distinct
                forall|j: int|
                    #![trigger removed@[j]]
                    0 <= j < removed@.len() ==> name_in(names_seq(visited@), removed@[j].name@)
                        && exists|i: int|
                        #![trigger orig[i]]
                        0 <= i < orig.len() && removed@[j] == orig[i],
                forall|a: int, b: int|
                    0 <= a < b < removed@.len() ==> removed@[a].name@ != removed@[b].name@,
                // frontier: a present row that depends on a removed name is
                // still on the work-list or already visited
                forall|j: int, v: Seq<char>|
                    0 <= j < self.rows().len() && name_in(row_names(removed@), v)
                        && #[trigger] is_dependent_row(self.rows()[j], v) ==> name_in(
                        names_seq(worklist@),
                        self.rows()[j].name@,
                    ) || name_in(names_seq(visited@), self.rows()[j].name@),
                // the root is always covered
                name_in(names_seq(worklist@), root@) || name_in(names_seq(visited@), root@),
                // a root that was never installed removes nothing
                !contains_name(orig, root@) ==> removed@.len() == 0 && forall|j: int|
                    0 <= j < worklist@.len() ==> #[trigger] worklist@[j]@ == root@,
            decreases self.rows().len(), worklist@.len(),
        {
            let ghost wl_old = worklist@;
            let ghost vis_old = visited@;
            let popped = worklist.pop();
            let current = match popped {
                Some(c) => c,
                None => {
                    proof {
                        assert(false);
                    }
                    root.clone()
                },
            };
            proof {
                assert(current@ == names_seq(wl_old)[wl_old.len() - 1]);
                assert(forall|t: int|
                    0 <= t < wl_old.len() - 1 ==> names_seq(worklist@)[t] == names_seq(wl_old)[t]);
                assert(forall|y: Seq<char>|
                    name_in(names_seq(wl_old), y) ==> name_in(names_seq(worklist@), y) || y
                        == current@);
            }
            if Self::contains_string(&visited, &current) {
                continue;
            }
            visited.push(current.clone());
            proof {
                assert(names_seq(visited@) =~= names_seq(vis_old).push(current@));
                lemma_name_in_push(names_seq(vis_old), current@, root@);
                assert(forall|y: Seq<char>|
                    name_in(names_seq(vis_old), y) ==> name_in(names_seq(visited@), y)) by {
                    assert(forall|t: int|
                        0 <= t < vis_old.len() ==> names_seq(visited@)[t] == names_seq(
                            vis_old,
                        )[t]);
                }
                assert(name_in(names_seq(visited@), current@)) by {
                    assert(names_seq(visited@)[vis_old.len() as int] == current@);
                }
            }
            let found = self.find(&current);
            match found {
                None => {
                    proof {
                        lemma_filter_out_props(orig, row_names(removed@));
                    }
                },
                Some(i) => {
                    proof {
                        lemma_filter_out_props(orig, row_names(removed@));
                        if !contains_name(orig, root@) {
                            // every work-list name is the root, and the root
                            // has no row anywhere, so no row can be found
                            assert(contains_name(orig, current@)) by {
                                assert(self.rows()[i as int].name@ == current@);
                            }
                            assert(false);
                        }
                    }
                    let ghost rows_before = self.rows();
                    let ghost gone_before = row_names(removed@);
                    let deps = self.dependents_of(&current);
                    let ghost wl_mid = worklist@;
                    let dn = deps.len();
                    let mut k: usize = 0;
                    while k < dn
                        invariant
                            k <= dn,
                            dn == deps@.len(),
                            worklist@ =~= wl_mid + deps@.take(k as int),
                        decreases dn - k,
                    {
                        worklist.push(deps[k].clone());
                        proof {
                            assert(worklist@ =~= wl_mid + deps@.take(k + 1));
                        }
                        k += 1;
                    }
                    proof {
                        assert(deps@.take(dn as int) =~= deps@);
                        assert(worklist@ =~= wl_mid + deps@);
                        // everything previously covered stays covered
                        assert(forall|t: int|
                            0 <= t < wl_mid.len() ==> names_seq(worklist@)[t] == names_seq(
                                wl_mid,
                            )[t]);
                        assert(forall|y: Seq<char>|
                            name_in(names_seq(wl_mid), y) ==> name_in(names_seq(worklist@), y));
                        // every dependent name is now on the work-list
                        assert(forall|t: int|
                            0 <= t < deps@.len() ==> names_seq(worklist@)[wl_mid.len() + t]
                                == deps@[t]@);
                        assert(forall|y: Seq<char>|
                            name_in(names_seq(deps@), y) ==> name_in(names_seq(worklist@), y)) by {
                            assert(forall|t: int|
                                0 <= t < deps@.len() ==> names_seq(deps@)[t] == deps@[t]@);
                        }
                        // the pushed names lie in the cascade
                        assert(forall|t: int|
                            0 <= t < deps@.len() ==> in_cascade(
                                orig,
                                root@,
                                #[trigger] deps@[t]@,
                            )) by {
                            assert(forall|t: int|
                                #![trigger deps@[t]]
                                0 <= t < deps@.len() ==> depends_on(
                                    rows_before,
                                    deps@[t]@,
                                    current@,
                                ));
                            assert(forall|d: Seq<char>|
                                depends_on(rows_before, d, current@) ==> depends_on(
                                    orig,
                                    d,
                                    current@,
                                )) by {
                                assert(forall|t: int|
                                    #![trigger rows_before[t]]
                                    0 <= t < rows_before.len() ==> exists|u: int|
                                        #![trigger orig[u]]
                                        0 <= u < orig.len() && rows_before[t] == orig[u]);
                            }
                            assert(forall|d: Seq<char>|
                                depends_on(orig, d, current@) && in_cascade(orig, root@, current@)
                                    ==> in_cascade(orig, root@, d)) by {
                                assert forall|d: Seq<char>|
                                    depends_on(orig, d, current@) && in_cascade(
                                        orig,
                                        root@,
                                        current@,
                                    ) implies in_cascade(orig, root@, d) by {
                                    lemma_in_cascade_extend(orig, root@, current@, d);
                                }
                            }
                        }
                    }
                    let ghost removed_old = removed@;
                    let row = self.mods.remove(i);
                    removed.push(row);
                    proof {
                        let x = current@;
                        assert(removed@[removed@.len() - 1] == rows_before[i as int]);
                        assert(rows_before[i as int].name@ == x);
                        assert(row_names(removed@) =~= gone_before.push(x));
                        lemma_filter_out_push(orig, gone_before, x);
                        lemma_remove_named_at(rows_before, i as int);
                        assert(self.rows() == remove_named(rows_before, x));
                        lemma_remove_keeps_unique(rows_before, i as int);
                        // the removed name has no row left; other visited
                        // names had none before and rows only went away
                        assert(forall|t: int|
                            0 <= t < i ==> self.rows()[t] == rows_before[t]);
                        assert(forall|t: int|
                            i <= t < self.rows().len() ==> self.rows()[t] == rows_before[t + 1]);
                        assert(!contains_name(self.rows(), x));
                        assert(forall|y: Seq<char>|
                            contains_name(self.rows(), y) ==> contains_name(rows_before, y));
                        // the new removed row came from the original registry
                        assert(exists|u: int|
                            #![trigger orig[u]]
                            0 <= u < orig.len() && removed@[removed@.len() - 1] == orig[u]) by {
                            assert(exists|u: int|
                                #![trigger orig[u]]
                                0 <= u < orig.len() && rows_before[i as int] == orig[u]);
                        }
                        assert(forall|t: int| 0 <= t < removed_old.len() ==> removed@[t]
                            == removed_old[t]);
                        // distinctness: the fresh name was not visited before,
                        // while every earlier removed name was
                        assert(forall|t: int|
                            0 <= t < removed_old.len() ==> removed@[t].name@ != x);
                        // membership in the new removal list
                        lemma_name_in_push(gone_before, x, root@);
                        assert(forall|y: Seq<char>|
                            name_in(row_names(removed@), y) ==> name_in(gone_before, y) || y
                                == x) by {
                            assert forall|y: Seq<char>|
                                name_in(row_names(removed@), y) implies name_in(gone_before, y)
                                || y == x by {
                                lemma_name_in_push(gone_before, x, y);
                            }
                        }
                        // frontier: rows depending on the fresh name are all
                        // on the work-list now
                        assert(forall|j: int, v: Seq<char>|
                            0 <= j < self.rows().len() && name_in(row_names(removed@), v)
                                && #[trigger] is_dependent_row(self.rows()[j], v) ==> name_in(
                                names_seq(worklist@),
                                self.rows()[j].name@,
                            ) || name_in(names_seq(visited@), self.rows()[j].name@)) by {
                            assert(forall|j: int|
                                #![trigger self.rows()[j]]
                                0 <= j < self.rows().len() && is_dependent_row(
                                    self.rows()[j],
                                    x,
                                ) ==> name_in(names_seq(deps@), self.rows()[j].name@)) by {
                                assert(forall|j: int|
                                    #![trigger self.rows()[j]]
                                    0 <= j < self.rows().len() ==> exists|t: int|
                                        #![trigger rows_before[t]]
                                        0 <= t < rows_before.len() && self.rows()[j]
                                            == rows_before[t]);
                            }
                        }
                    }
                },
            }
        }
        proof {
            assert(worklist@.len() == 0);
            assert(name_in(names_seq(visited@), root@));
            if contains_name(orig, root@) {
                assert forall|x: Seq<char>|
                    in_cascade(orig, root@, x) && contains_name(orig, x) implies name_in(
                    row_names(removed@),
                    x,
                ) by {
                    let n = choose|n: nat| cascade_reach(orig, root@, x, n);
                    assert forall|v: Seq<char>|
                        name_in(names_seq(visited@), v) implies !contains_name(
                        self.rows(),
                        v,
                    ) by {
                        let t = choose|t: int|
                            0 <= t < names_seq(visited@).len() && names_seq(visited@)[t] == v;
                        assert(visited@[t]@ == v);
                    }
                    lemma_cascade_complete(
                        orig,
                        root@,
                        x,
                        n,
                        row_names(removed@),
                        names_seq(visited@),
                        self.rows(),
                    );
                }
            } else {
                assert(row_names(removed@).len() == 0);
                lemma_filter_out_all_kept(orig, row_names(removed@));
            }
        }
        removed
    }

    /// Whether `x` occurs in `v`.
    fn contains_string(v: &Vec<String>, x: &String) -> (r: bool)
        ensures
            r == name_in(names_seq(v@), x@),
    {
        let n = v.len();
        let mut i: usize = 0;
        while i < n
            invariant
                i <= n,
                n == v@.len(),
                forall|j: int| 0 <= j < i ==> v@[j]@ != x@,
            decreases n - i,
        {
            if v[i] == *x {
                proof {
                    assert(names_seq(v@)[i as int] == x@);
                }
                return true;
            }
            i += 1;
        }
        proof {
            assert(forall|j: int| 0 <= j < names_seq(v@).len() ==> names_seq(v@)[j] == v@[j]@);
        }
        false
    }

    /// Whether row `m` declares `name` among its dependencies.
    fn lists_dependency(m: &InstalledMod, name: &String) -> (r: bool)
        ensures
            r == lists_dep(*m, name@),
    {
        let k = m.dependencies.len();
        let mut j: usize = 0;
        while j < k
            invariant
                j <= k,
                k == m.dependencies@.len(),
                forall|t: int| 0 <= t < j ==> m.dependencies@[t]@ != name@,
            decreases k - j,
        {
            if m.dependencies[j] == *name {
                return true;
            }
            j += 1;
        }
        false
    }
}

} // verus!

//! Reconciliation of the installed-package listing (`<name> <version>` per
//! line) with the archive files found in the package cache.
use vstd::prelude::*;
use crate::filename::{has_prefix, package_name, package_name_end, same_chars};
use crate::order::{lemma_sorted_desc_unique, sorted_desc, sort_desc};
use crate::text::{
    chars_of, lines, split_lines, split_tokens, string_from, string_views, tokens, views,
};

verus! {

broadcast use vstd::seq_lib::group_to_multiset_ensures;

/// An explicitly installed package and the cached archives of it.
pub struct InstalledPackage {
    pub name: String,
    pub version: String,
    pub cached_versions: Vec<String>,
}

pub ghost struct InstalledModel {
    pub name: Seq<char>,
    pub version: Seq<char>,
    pub cached_versions: Seq<Seq<char>>,
}

impl View for InstalledPackage {
    type V = InstalledModel;

    open spec fn view(&self) -> InstalledModel {
        InstalledModel {
            name: self.name@,
            version: self.version@,
            cached_versions: string_views(self.cached_versions@),
        }
    }
}

pub open spec fn package_views(v: Seq<InstalledPackage>) -> Seq<InstalledModel> {
    v.map_values(|p: InstalledPackage| p@)
}

/// The (name, version) pairs of the listing lines with at least two tokens.
pub open spec fn entries_of_lines(ls: Seq<Seq<char>>) -> Seq<(Seq<char>, Seq<char>)>
    decreases ls.len(),
{
    if ls.len() == 0 {
        Seq::empty()
    } else {
        let p = entries_of_lines(ls.drop_last());
        let t = tokens(ls.last());
        if t.len() >= 2 {
            p.push((t[0], t[1]))
        } else {
            p
        }
    }
}

pub open spec fn listing_entries(listing: Seq<char>) -> Seq<(Seq<char>, Seq<char>)> {
    entries_of_lines(lines(listing))
}

/// The cache file names whose package name is `name`, in listing order.
pub open spec fn cache_matches(files: Seq<Seq<char>>, name: Seq<char>) -> Seq<Seq<char>>
    decreases files.len(),
{
    if files.len() == 0 {
        Seq::empty()
    } else {
        let p = cache_matches(files.drop_last(), name);
        if package_name(files.last()) == Some(name) {
            p.push(files.last())
        } else {
            p
        }
    }
}

/// An earlier entry of the listing already has the name of entry `k`.
pub open spec fn claimed_before(entries: Seq<(Seq<char>, Seq<char>)>, k: int) -> bool {
    exists|j: int| 0 <= j < k && entries[j].0 == entries[k].0
}

/// `r` is the reconciliation of the listing with the cache file names: one
/// package per entry, carrying the cache files of its name in descending
/// lexical order, each file given to the first entry of its name only.
pub open spec fn is_reconciliation(
    listing: Seq<char>,
    files: Seq<Seq<char>>,
    r: Seq<InstalledModel>,
) -> bool {
    let e = listing_entries(listing);
    &&& r.len() == e.len()
    &&& forall|k: int|
        0 <= k < r.len() ==> {
            &&& #[trigger] r[k].name == e[k].0
            &&& r[k].version == e[k].1
            &&& if claimed_before(e, k) {
                r[k].cached_versions.len() == 0
            } else {
                &&& sorted_desc(r[k].cached_versions)
                &&& r[k].cached_versions.to_multiset() == cache_matches(
                    files,
                    e[k].0,
                ).to_multiset()
            }
        }
}

/// Reconciling the same listing with the same cache files gives the same
/// packages: the result is determined by its inputs.
pub proof fn lemma_reconciliation_deterministic(
    listing: Seq<char>,
    files: Seq<Seq<char>>,
    r1: Seq<InstalledModel>,
    r2: Seq<InstalledModel>,
)
    requires
        is_reconciliation(listing, files, r1),
        is_reconciliation(listing, files, r2),
    ensures
        r1 == r2,
{
    let e = listing_entries(listing);
    assert forall|k: int| 0 <= k < r1.len() implies r1[k] == r2[k] by {
        assert(r1[k].name == e[k].0 && r2[k].name == e[k].0);
        if claimed_before(e, k) {
            assert(r1[k].cached_versions =~= r2[k].cached_versions);
        } else {
            lemma_sorted_desc_unique(r1[k].cached_versions, r2[k].cached_versions);
        }
    }
    assert(r1 =~= r2);
}

fn listing_entries_exec(listing: &str) -> (r: (Vec<Vec<char>>, Vec<Vec<char>>))
    ensures
        r.0@.len() == listing_entries(listing@).len(),
        r.1@.len() == listing_entries(listing@).len(),
        forall|k: int|
            0 <= k < r.0@.len() ==> (#[trigger] r.0@[k]@, r.1@[k]@) == listing_entries(
                listing@,
            )[k],
{
    let cs = chars_of(listing);
    let ls = split_lines(&cs);
    let mut names: Vec<Vec<char>> = Vec::new();
    let mut versions: Vec<Vec<char>> = Vec::new();
    let mut i: usize = 0;
    while i < ls.len()
        invariant
            i <= ls@.len(),
            views(ls@) == lines(listing@),
            names@.len() == versions@.len(),
            names@.len() == entries_of_lines(views(ls@).subrange(0, i as int)).len(),
            forall|k: int|
                0 <= k < names@.len() ==> (#[trigger] names@[k]@, versions@[k]@)
                    == entries_of_lines(views(ls@).subrange(0, i as int))[k],
        decreases ls@.len() - i,
    {
        let ghost pre = views(ls@).subrange(0, i + 1);
        assert(pre.drop_last() =~= views(ls@).subrange(0, i as int));
        assert(pre.last() == ls@[i as int]@);
        let t = split_tokens(&ls[i]);
        if t.len() >= 2 {
            names.push(t[0].clone());
            versions.push(t[1].clone());
        }
        i = i + 1;
    }
    assert(views(ls@).subrange(0, ls@.len() as int) =~= views(ls@));
    (names, versions)
}

fn strings_of(v: &Vec<Vec<char>>) -> (r: Vec<String>)
    ensures
        string_views(r@) == views(v@),
{
    let mut r: Vec<String> = Vec::new();
    let mut i: usize = 0;
    while i < v.len()
        invariant
            i <= v@.len(),
            string_views(r@) == views(v@).subrange(0, i as int),
        decreases v@.len() - i,
    {
        let ghost r0 = string_views(r@);
        let x = string_from(&v[i]);
        r.push(x);
        assert(string_views(r@) =~= r0.push(v@[i as int]@));
        assert(views(v@).subrange(0, i + 1) =~= views(v@).subrange(0, i as int).push(v@[i as int]@));
        i = i + 1;
    }
    assert(views(v@).subrange(0, v@.len() as int) =~= views(v@));
    r
}

/// Joins the installed-package listing with the names of the files in the
/// package cache directory.
pub fn reconcile(listing: &str, cache_files: &Vec<String>) -> (r: Vec<InstalledPackage>)
    ensures
        is_reconciliation(listing@, string_views(cache_files@), package_views(r@)),
{
    let ghost files = string_views(cache_files@);
    let ghost e = listing_entries(listing@);
    let mut fcs: Vec<Vec<char>> = Vec::new();
    let mut ends: Vec<Option<usize>> = Vec::new();
    let mut i: usize = 0;
    while i < cache_files.len()
        invariant
            i <= cache_files@.len(),
            files == string_views(cache_files@),
            fcs@.len() == i,
            ends@.len() == i,
            forall|k: int| 0 <= k < i ==> #[trigger] fcs@[k]@ == files[k],
            forall|k: int|
                0 <= k < i ==> match #[trigger] ends@[k] {
                    None => package_name(files[k]) is None,
                    Some(c) => c <= files[k].len() && package_name(files[k]) == Some(
                        files[k].subrange(0, c as int),
                    ),
                },
        decreases cache_files@.len() - i,
    {
        let cs = chars_of(cache_files[i].as_str());
        let end = package_name_end(&cs);
        fcs.push(cs);
        ends.push(end);
        i = i + 1;
    }
    let (names, versions) = listing_entries_exec(listing);
    let mut r: Vec<InstalledPackage> = Vec::new();
    let mut k: usize = 0;
    while k < names.len()
        invariant
            k <= names@.len(),
            files == string_views(cache_files@),
            e == listing_entries(listing@),
            names@.len() == e.len(),
            versions@.len() == e.len(),
            forall|q: int| 0 <= q < names@.len() ==> (#[trigger] names@[q]@, versions@[q]@) == e[q],
            fcs@.len() == files.len(),
            ends@.len() == files.len(),
            forall|q: int| 0 <= q < files.len() ==> #[trigger] fcs@[q]@ == files[q],
            forall|q: int|
                0 <= q < files.len() ==> match #[trigger] ends@[q] {
                    None => package_name(files[q]) is None,
                    Some(c) => c <= files[q].len() && package_name(files[q]) == Some(
                        files[q].subrange(0, c as int),
                    ),
                },
            r@.len() == k,
            forall|q: int|
                0 <= q < k ==> {
                    &&& #[trigger] r@[q]@.name == e[q].0
                    &&& r@[q]@.version == e[q].1
                    &&& if claimed_before(e, q) {
                        r@[q]@.cached_versions.len() == 0
                    } else {
                        &&& sorted_desc(r@[q]@.cached_versions)
                        &&& r@[q]@.cached_versions.to_multiset() == cache_matches(
                            files,
                            e[q].0,
                        ).to_multiset()
                    }
                },
        decreases names@.len() - k,
    {
        let name = &names[k];
        let mut claimed = false;
        let mut j: usize = 0;
        while j < k
            invariant
                j <= k < names@.len(),
                names@.len() == e.len(),
                versions@.len() == e.len(),
                forall|q: int| 0 <= q < names@.len() ==> (#[trigger] names@[q]@, versions@[q]@) == e[q],
                name == names@[k as int],
                claimed == exists|q: int| 0 <= q < j && e[q].0 == e[k as int].0,
            decreases k - j,
        {
            assert((names@[j as int]@, versions@[j as int]@) == e[j as int]);
            assert((names@[k as int]@, versions@[k as int]@) == e[k as int]);
            if same_chars(&names[j], name) {
                claimed = true;
            }
            j = j + 1;
        }
        assert((names@[k as int]@, versions@[k as int]@) == e[k as int]);
        let mut cached: Vec<Vec<char>> = Vec::new();
        if !claimed {
            let mut i: usize = 0;
            while i < fcs.len()
                invariant
                    i <= fcs@.len(),
                    fcs@.len() == files.len(),
                    ends@.len() == files.len(),
                    forall|q: int| 0 <= q < files.len() ==> #[trigger] fcs@[q]@ == files[q],
                    forall|q: int|
                        0 <= q < files.len() ==> match #[trigger] ends@[q] {
                            None => package_name(files[q]) is None,
                            Some(c) => c <= files[q].len() && package_name(files[q]) == Some(
                                files[q].subrange(0, c as int),
                            ),
                        },
                    views(cached@) == cache_matches(files.subrange(0, i as int), name@),
                decreases fcs@.len() - i,
            {
                let ghost pre = files.subrange(0, i + 1);
                assert(pre.drop_last() =~= files.subrange(0, i as int));
                assert(pre.last() == files[i as int]);
                assert(fcs@[i as int]@ == files[i as int]);
                let hit = match ends[i] {
                    None => false,
                    Some(c) => c == name.len() && has_prefix(&fcs[i], name),
                };
                let ghost c0 = views(cached@);
                if hit {
                    cached.push(fcs[i].clone());
                    assert(views(cached@) =~= c0.push(files[i as int]));
                }
                i = i + 1;
            }
            assert(files.subrange(0, files.len() as int) =~= files);
        }
        let sorted = sort_desc(cached);
        let p = InstalledPackage {
            name: string_from(name),
            version: string_from(&versions[k]),
            cached_versions: strings_of(&sorted),
        };
        proof {
            if claimed {
                assert(views(sorted@).to_multiset().len() == 0);
                assert(views(sorted@).len() == 0);
            } else {
                assert(!claimed_before(e, k as int));
            }
        }
        let ghost r0 = r@;
        r.push(p);
        assert forall|q: int| 0 <= q < k implies #[trigger] r@[q] == r0[q] by {}
        assert(r@[k as int]@.name == e[k as int].0);
        k = k + 1;
    }
    assert(package_views(r@).len() == e.len());
    assert forall|q: int| 0 <= q < e.len() implies #[trigger] package_views(r@)[q] == r@[q]@ by {}
    r
}

} // verus!

use vstd::prelude::*;
use crate::format::{entries_view, EntryModel, FileInfo};

verus! {

/// The catalog that `es` gives: each path maps to the last entry that has
/// it, so a later entry overwrites an earlier one with the same path.
pub open spec fn catalog_of(es: Seq<EntryModel>) -> Map<Seq<char>, EntryModel>
    decreases es.len(),
{
    if es.len() == 0 {
        Map::empty()
    } else {
        let rest = catalog_of(es.drop_first());
        if rest.dom().contains(es[0].path) {
            rest
        } else {
            rest.insert(es[0].path, es[0])
        }
    }
}

/// No two entries of `es` share a path.
pub open spec fn unique_paths(es: Seq<EntryModel>) -> bool {
    forall|i: int, j: int| 0 <= i < j < es.len() ==> es[i].path != es[j].path
}

/// The set of paths of `es`.
pub open spec fn paths_of(es: Seq<EntryModel>) -> Set<Seq<char>> {
    es.map_values(|e: EntryModel| e.path).to_set()
}

/// A path is in the catalog exactly when some entry has it.
pub proof fn lemma_catalog_domain(es: Seq<EntryModel>)
    ensures
        catalog_of(es).dom() == paths_of(es),
    decreases es.len(),
{
    if es.len() > 0 {
        lemma_catalog_domain(es.drop_first());
        let ps = es.map_values(|e: EntryModel| e.path);
        let rs = es.drop_first().map_values(|e: EntryModel| e.path);
        assert forall|p: Seq<char>| ps.to_set().contains(p) <==> (p == es[0].path
            || rs.to_set().contains(p)) by {
            if ps.to_set().contains(p) {
                let k = choose|k: int| 0 <= k < ps.len() && ps[k] == p;
                if k > 0 {
                    assert(rs[k - 1] == p);
                }
            }
            if rs.to_set().contains(p) {
                let k = choose|k: int| 0 <= k < rs.len() && rs[k] == p;
                assert(ps[k + 1] == p);
            }
            if p == es[0].path {
                assert(ps[0] == p);
            }
        }
        assert(catalog_of(es).dom() =~= paths_of(es));
    } else {
        assert(paths_of(es) =~= Set::empty());
    }
}

/// Folds the entries into a list with one entry per path, keeping for each
/// path the last entry that has it.
pub fn build_catalog(entries: Vec<FileInfo>) -> (r: Vec<FileInfo>)
    ensures
        unique_paths(entries_view(r@)),
        catalog_of(entries_view(r@)) == catalog_of(entries_view(entries@)),
{
    let ghost all = entries_view(entries@);
    let mut rest = entries;
    let mut files: Vec<FileInfo> = Vec::new();
    assert(entries_view(files@) =~= Seq::<EntryModel>::empty());
    assert(all.subrange(all.len() as int, all.len() as int) =~= Seq::<EntryModel>::empty());
    while rest.len() > 0
        invariant
            rest@.len() <= all.len(),
            entries_view(rest@) == all.subrange(0, rest@.len() as int),
            unique_paths(entries_view(files@)),
            catalog_of(entries_view(files@)) == catalog_of(
                all.subrange(rest@.len() as int, all.len() as int),
            ),
        decreases rest@.len(),
    {
        let ghost before_rest = rest@;
        let f = rest.pop().unwrap();
        let ghost k = rest@.len() as int;
        assert(entries_view(rest@) =~= all.subrange(0, k)) by {
            assert(entries_view(before_rest) =~= entries_view(rest@).push(f@));
        }
        assert(f@ == all[k]) by {
            assert(entries_view(before_rest)[k] == f@);
        }
        let ghost suffix = all.subrange(k, all.len() as int);
        assert(suffix.drop_first() =~= all.subrange(k + 1, all.len() as int));
        assert(suffix[0] == f@);
        let ghost fv = entries_view(files@);
        proof {
            lemma_catalog_domain(fv);
        }
        let mut i: usize = 0;
        let mut found = false;
        while i < files.len()
            invariant
                i <= files@.len(),
                fv == entries_view(files@),
                !found ==> forall|m: int| 0 <= m < i ==> files@[m].path@ != f.path@,
                found ==> exists|m: int| 0 <= m < files@.len() && files@[m].path@ == f.path@,
            decreases files@.len() - i,
        {
            if files[i].path == f.path {
                found = true;
            }
            i = i + 1;
        }
        if found {
            let ghost m = choose|m: int| 0 <= m < files@.len() && files@[m].path@ == f.path@;
            assert(fv.map_values(|e: EntryModel| e.path)[m] == f.path@);
            assert(paths_of(fv).contains(f.path@));
        } else {
            assert(!paths_of(fv).contains(f.path@)) by {
                if paths_of(fv).contains(f.path@) {
                    let ps = fv.map_values(|e: EntryModel| e.path);
                    let m = choose|m: int| 0 <= m < ps.len() && #[trigger] ps[m] == f.path@;
                    assert(files@[m].path@ == f.path@);
                }
            }
            files.insert(0, f);
            assert(entries_view(files@) =~= seq![f@] + fv);
            assert((seq![f@] + fv).drop_first() =~= fv);
        }
    }
    assert(all.subrange(0, all.len() as int) =~= all);
    files
}

/// Listing the catalog built from a table of contents yields each path of
/// that table exactly once.
pub proof fn lemma_list_is_toc_paths(entries: Seq<EntryModel>, listed: Seq<EntryModel>)
    requires
        unique_paths(listed),
        catalog_of(listed) == catalog_of(entries),
    ensures
        paths_of(listed) == paths_of(entries),
        unique_paths(listed),
{
    lemma_catalog_domain(listed);
    lemma_catalog_domain(entries);
}

/// In a list without repeated paths, each entry is what the catalog holds
/// for its path.
pub proof fn lemma_catalog_lookup(es: Seq<EntryModel>, i: int)
    requires
        unique_paths(es),
        0 <= i < es.len(),
    ensures
        catalog_of(es).dom().contains(es[i].path),
        catalog_of(es)[es[i].path] == es[i],
    decreases es.len(),
{
    let rest = es.drop_first();
    assert(unique_paths(rest)) by {
        assert forall|a: int, b: int| 0 <= a < b < rest.len() implies rest[a].path
            != rest[b].path by {
            assert(rest[a] == es[a + 1] && rest[b] == es[b + 1]);
        }
    }
    if i == 0 {
        lemma_catalog_domain(rest);
        if paths_of(rest).contains(es[0].path) {
            let ps = rest.map_values(|e: EntryModel| e.path);
            let m = choose|m: int| 0 <= m < ps.len() && #[trigger] ps[m] == es[0].path;
            assert(es[m + 1].path == es[0].path);
        }
    } else {
        assert(rest[i - 1] == es[i]);
        lemma_catalog_lookup(rest, i - 1);
    }
}

/// The position of the entry with path `path`, if any.
pub fn find_entry(files: &Vec<FileInfo>, path: &str) -> (r: Option<usize>)
    requires
        unique_paths(entries_view(files@)),
    ensures
        match r {
            Some(i) => i < files@.len() && catalog_of(entries_view(files@)).dom().contains(path@)
                && catalog_of(entries_view(files@))[path@] == files@[i as int]@,
            None => !catalog_of(entries_view(files@)).dom().contains(path@),
        },
{
    let key = path.to_owned();
    let mut i: usize = 0;
    while i < files.len()
        invariant
            i <= files@.len(),
            key@ == path@,
            unique_paths(entries_view(files@)),
            forall|m: int| 0 <= m < i ==> files@[m].path@ != path@,
        decreases files@.len() - i,
    {
        if files[i].path == key {
            proof {
                assert(entries_view(files@)[i as int] == files@[i as int]@);
                lemma_catalog_lookup(entries_view(files@), i as int);
            }
            return Some(i);
        }
        i = i + 1;
    }
    proof {
        let fv = entries_view(files@);
        lemma_catalog_domain(fv);
        if paths_of(fv).contains(path@) {
            let ps = fv.map_values(|e: EntryModel| e.path);
            let m = choose|m: int| 0 <= m < ps.len() && #[trigger] ps[m] == path@;
            assert(files@[m].path@ == path@);
        }
    }
    None
}

} // verus!

//! The retriever's own rules: which files answer a query, given the ids that
//! the index returned for it.
use vstd::prelude::*;

use crate::catalog::{entry_under, file_key, index_key, Catalog};
use crate::error::CatalogError;
use crate::text::texts;

verus! {

broadcast use vstd::seq::group_seq_axioms;

/// The file names of the entries of the hit ids, each once, in the order of
/// their first hit; ids without an entry are passed over.
pub open spec fn hit_files(m: Map<Seq<u8>, Seq<u8>>, ids: Seq<u64>) -> Seq<Seq<char>>
    decreases ids.len(),
{
    if ids.len() == 0 {
        Seq::empty()
    } else {
        let acc = hit_files(m, ids.drop_last());
        match entry_under(m, index_key(ids.last())) {
            Some(e) => if acc.contains(e.0) {
                acc
            } else {
                acc.push(e.0)
            },
            None => acc,
        }
    }
}

/// Of `files`, those that still have an entry under their path, in order.
pub open spec fn still_listed(m: Map<Seq<u8>, Seq<u8>>, files: Seq<Seq<char>>) -> Seq<Seq<char>>
    decreases files.len(),
{
    if files.len() == 0 {
        Seq::empty()
    } else if m.contains_key(file_key(files.last())) {
        still_listed(m, files.drop_last()).push(files.last())
    } else {
        still_listed(m, files.drop_last())
    }
}

/// Whether `name` is among `v`.
fn holds_name(v: &Vec<String>, name: &String) -> (r: bool)
    ensures
        r == texts(v@).contains(name@),
{
    let mut i: usize = 0;
    while i < v.len()
        invariant
            0 <= i <= v@.len(),
            forall|j: int| 0 <= j < i ==> v@[j]@ != name@,
        decreases v@.len() - i,
    {
        if v[i] == *name {
            assert(texts(v@)[i as int] == name@);
            return true;
        }
        i += 1;
    }
    assert forall|j: int| 0 <= j < texts(v@).len() implies texts(v@)[j] != name@ by {
        assert(v@[j]@ != name@);
    }
    false
}

/// The files that answer a query: the file of each hit id, once each, in the
/// order of first hit, kept only while the file still has its own entry.
pub fn candidate_files(catalog: &Catalog, ids: &Vec<u64>) -> (r: Result<Vec<String>, CatalogError>)
    ensures
        r matches Ok(files) ==> texts(files@) == still_listed(
            catalog.contents(),
            hit_files(catalog.contents(), ids@),
        ),
        ids@.len() == 0 ==> (r matches Ok(files) && files@.len() == 0),
        r matches Err(e) ==> e != CatalogError::NotFound,
{
    if ids.len() == 0 {
        let none: Vec<String> = Vec::new();
        assert(texts(none@) =~= Seq::<Seq<char>>::empty());
        return Ok(none);
    }
    let mut found: Vec<String> = Vec::new();
    let mut i: usize = 0;
    while i < ids.len()
        invariant
            0 <= i <= ids@.len(),
            texts(found@) == hit_files(catalog.contents(), ids@.subrange(0, i as int)),
        decreases ids@.len() - i,
    {
        proof {
            assert(ids@.subrange(0, i + 1).drop_last() =~= ids@.subrange(0, i as int));
        }
        match catalog.get_by_index(ids[i]) {
            Ok(entry) => {
                if !holds_name(&found, entry.filename()) {
                    found.push(entry.filename().clone());
                    assert(texts(found@) =~= texts(found@.drop_last()).push(found@.last()@));
                }
            },
            Err(CatalogError::NotFound) => {},
            Err(e) => return Err(e),
        }
        i += 1;
    }
    assert(ids@.subrange(0, ids@.len() as int) =~= ids@);
    let mut listed: Vec<String> = Vec::new();
    let mut j: usize = 0;
    while j < found.len()
        invariant
            0 <= j <= found@.len(),
            ids@.len() > 0,
            texts(listed@) == still_listed(catalog.contents(), texts(found@.subrange(0, j as int))),
        decreases found@.len() - j,
    {
        proof {
            assert(texts(found@.subrange(0, j + 1)).drop_last() =~= texts(found@.subrange(0, j as int)));
        }
        let name = found[j].clone();
        match catalog.is_file_in_catalog(name.clone()) {
            Ok(true) => {
                listed.push(name);
                assert(texts(listed@) =~= texts(listed@.drop_last()).push(listed@.last()@));
            },
            Ok(false) => {},
            Err(e) => return Err(e),
        }
        j += 1;
    }
    assert(found@.subrange(0, found@.len() as int) =~= found@);
    Ok(listed)
}

} // verus!

//! Pure operations on the ordered domain list: append, remove, toggle.
//!
//! The list keeps insertion order, which decides both the render order and
//! the order of the serialized region. Duplicate names are permitted and
//! preserved: coalescing them is deliberately not done here.

use vstd::prelude::*;
use vstd::pervasive::VecAdditionalExecFns;

use crate::domain::{copy_domains, doms_view, Domain, DomainStatus, DomainView};

verus! {

/// The failure of a list operation handed an index outside the list.
#[derive(Clone, Copy, PartialEq, Eq, Structural, Debug)]
pub enum ListError {
    IndexOutOfRange,
}

/// The opposite status.
pub open spec fn flip(st: DomainStatus) -> DomainStatus {
    match st {
        DomainStatus::Blocked => DomainStatus::Unblocked,
        DomainStatus::Unblocked => DomainStatus::Blocked,
    }
}

/// What `add` yields: the same list with a new blocked entry at the end.
pub open spec fn add_spec(ds: Seq<DomainView>, name: Seq<char>) -> Seq<DomainView> {
    ds.push(DomainView { url: name, status: DomainStatus::Blocked })
}

/// What `remove` yields on an in-range index.
pub open spec fn remove_spec(ds: Seq<DomainView>, i: int) -> Seq<DomainView> {
    ds.remove(i)
}

/// What `toggle` yields on an in-range index: only the addressed entry's
/// status flips.
pub open spec fn toggle_spec(ds: Seq<DomainView>, i: int) -> Seq<DomainView> {
    ds.update(i, DomainView { url: ds[i].url, status: flip(ds[i].status) })
}

/// Appends a new domain with status `Blocked` at the end. No
/// de-duplication: an existing entry of the same name stays.
pub fn add(list: &Vec<Domain>, name: &str) -> (r: Vec<Domain>)
    ensures
        doms_view(r@) == add_spec(doms_view(list@), name@),
{
    let mut out = copy_domains(list);
    out.push(Domain { url: name.to_owned(), status: DomainStatus::Blocked });
    proof {
        assert(doms_view(out@) =~= add_spec(doms_view(list@), name@));
    }
    out
}

/// Removes the entry at `index`; an out-of-range index (in particular, any
/// index into an empty list) is an error and changes nothing.
pub fn remove(list: &Vec<Domain>, index: usize) -> (r: Result<Vec<Domain>, ListError>)
    ensures
        match r {
            Ok(out) => index < list@.len() && doms_view(out@) == remove_spec(
                doms_view(list@),
                index as int,
            ),
            Err(e) => index >= list@.len() && e == ListError::IndexOutOfRange,
        },
{
    if index >= list.len() {
        return Err(ListError::IndexOutOfRange);
    }
    let mut out = copy_domains(list);
    out.remove(index);
    proof {
        assert(doms_view(out@) =~= remove_spec(doms_view(list@), index as int));
    }
    Ok(out)
}

/// Flips the status of the entry at `index` and nothing else; an
/// out-of-range index is an error and changes nothing.
pub fn toggle(list: &Vec<Domain>, index: usize) -> (r: Result<Vec<Domain>, ListError>)
    ensures
        match r {
            Ok(out) => index < list@.len() && doms_view(out@) == toggle_spec(
                doms_view(list@),
                index as int,
            ),
            Err(e) => index >= list@.len() && e == ListError::IndexOutOfRange,
        },
{
    if index >= list.len() {
        return Err(ListError::IndexOutOfRange);
    }
    let mut out = copy_domains(list);
    let url = list[index].url.clone();
    let status = match list[index].status {
        DomainStatus::Blocked => DomainStatus::Unblocked,
        DomainStatus::Unblocked => DomainStatus::Blocked,
    };
    out.set(index, Domain { url, status });
    proof {
        assert(doms_view(out@) =~= toggle_spec(doms_view(list@), index as int));
    }
    Ok(out)
}

/// Order preservation of `add`: the new entry stands at the end, and every
/// existing entry keeps its place and its value.
pub proof fn lemma_add_appends(ds: Seq<DomainView>, name: Seq<char>)
    ensures
        add_spec(ds, name).len() == ds.len() + 1,
        forall|i: int| 0 <= i < ds.len() ==> add_spec(ds, name)[i] == ds[i],
        add_spec(ds, name)[ds.len() as int] == (DomainView {
            url: name,
            status: DomainStatus::Blocked,
        }),
{
}

/// Order preservation of `toggle`: every other entry is untouched, and the
/// addressed entry keeps its name.
pub proof fn lemma_toggle_preserves_rest(ds: Seq<DomainView>, i: int)
    requires
        0 <= i < ds.len(),
    ensures
        toggle_spec(ds, i).len() == ds.len(),
        forall|j: int| 0 <= j < ds.len() && j != i ==> toggle_spec(ds, i)[j] == ds[j],
        toggle_spec(ds, i)[i].url == ds[i].url,
        toggle_spec(ds, i)[i].status == flip(ds[i].status),
{
}

/// Order preservation of `remove`: the entries before the removed one keep
/// their places, and those after it shift down by one, in order.
pub proof fn lemma_remove_preserves_rest(ds: Seq<DomainView>, i: int)
    requires
        0 <= i < ds.len(),
    ensures
        remove_spec(ds, i).len() == ds.len() - 1,
        forall|j: int| 0 <= j < i ==> remove_spec(ds, i)[j] == ds[j],
        forall|j: int| i <= j < ds.len() - 1 ==> remove_spec(ds, i)[j] == ds[j + 1],
{
}

} // verus!

//! Domain entries: a name together with a blocked/unblocked status.

use vstd::prelude::*;

use crate::text::is_space;

verus! {

/// Whether a domain is currently blocked (its entry routes the name to the
/// loopback address) or unblocked (its entry line is commented out).
#[derive(Clone, Copy, PartialEq, Eq, Structural, Debug)]
pub enum DomainStatus {
    Blocked,
    Unblocked,
}

/// One entry of the managed list. Equality of entries is by name; the name
/// is never edited in place, only added, removed, or toggled.
#[derive(Debug)]
pub struct Domain {
    pub url: String,
    pub status: DomainStatus,
}

/// The mathematical value of a `Domain`: the name as a character sequence,
/// plus the status.
pub ghost struct DomainView {
    pub url: Seq<char>,
    pub status: DomainStatus,
}

impl View for Domain {
    type V = DomainView;

    open spec fn view(&self) -> DomainView {
        DomainView { url: self.url@, status: self.status }
    }
}

/// The value of a whole domain vector: the views of its entries, in order.
pub open spec fn doms_view(ds: Seq<Domain>) -> Seq<DomainView> {
    ds.map_values(|d: Domain| d@)
}

/// A name the codec can write and read back unchanged: non-empty and free
/// of whitespace, since a serialized entry line is split on whitespace.
pub open spec fn wf_name(name: Seq<char>) -> bool {
    &&& name.len() > 0
    &&& forall|i: int| 0 <= i < name.len() ==> !is_space(#[trigger] name[i])
}

pub open spec fn wf_domain(d: DomainView) -> bool {
    wf_name(d.url)
}

pub open spec fn wf_domains(ds: Seq<DomainView>) -> bool {
    forall|i: int| 0 <= i < ds.len() ==> wf_domain(#[trigger] ds[i])
}

/// An independent copy of one entry.
pub fn copy_domain(d: &Domain) -> (r: Domain)
    ensures
        r@ == d@,
{
    Domain { url: d.url.clone(), status: d.status }
}

/// An independent copy of a whole list of entries.
pub fn copy_domains(ds: &Vec<Domain>) -> (r: Vec<Domain>)
    ensures
        doms_view(r@) == doms_view(ds@),
        r@.len() == ds@.len(),
        forall|i: int| 0 <= i < ds@.len() ==> #[trigger] r@[i]@ == ds@[i]@,
{
    let mut out: Vec<Domain> = Vec::new();
    let mut i: usize = 0;
    while i < ds.len()
        invariant
            i <= ds@.len(),
            out@.len() == i,
            forall|j: int| 0 <= j < i ==> #[trigger] out@[j]@ == ds@[j]@,
        decreases ds@.len() - i,
    {
        out.push(copy_domain(&ds[i]));
        i = i + 1;
    }
    proof {
        assert(doms_view(out@) =~= doms_view(ds@));
    }
    out
}

} // verus!

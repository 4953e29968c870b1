//! The endpoint catalog: the destinations that a scan found alive, in the
//! order in which it found them, and the addresses that it gave up.

use crate::addr::Ipv4;
use crate::scanner::{Destination, Scanner};
use vstd::prelude::*;

verus! {

/// The catalog of endpoints.
#[derive(Clone, Debug)]
pub struct IPStore {
    pub dsts: Vec<Destination>,
    pub dead: Vec<Ipv4>,
}

/// No address is both a destination and given up.
pub open spec fn disjoint(dsts: Seq<Destination>, dead: Seq<Ipv4>) -> bool {
    forall|i: int, j: int| 0 <= i < dsts.len() && 0 <= j < dead.len() ==> dsts[i].ip != dead[j]
}

impl IPStore {
    /// The empty catalog.
    pub fn new() -> (store: Self)
        ensures
            store.dsts@ == Seq::<Destination>::empty(),
            store.dead@ == Seq::<Ipv4>::empty(),
            disjoint(store.dsts@, store.dead@),
    {
        Self { dsts: Vec::new(), dead: Vec::new() }
    }

    /// The catalog to store after a scan: the scanner's destinations in their
    /// order. The addresses that the scanner gave up are left out, so that a
    /// later scan may probe them again.
    pub fn from_scanner(scanner: &Scanner) -> (store: Self)
        ensures
            store.dsts@ == scanner.dsts@,
            store.dead@ == Seq::<Ipv4>::empty(),
            disjoint(store.dsts@, store.dead@),
    {
        let mut dsts: Vec<Destination> = Vec::new();
        let mut i: usize = 0;
        while i < scanner.dsts.len()
            invariant
                i <= scanner.dsts.len(),
                dsts@ == scanner.dsts@.subrange(0, i as int),
            decreases scanner.dsts.len() - i,
        {
            dsts.push(scanner.dsts[i]);
            i += 1;
        }
        assert(scanner.dsts@.subrange(0, scanner.dsts.len() as int) == scanner.dsts@);
        Self { dsts, dead: Vec::new() }
    }

    /// The catalog to start from, given what was read from the catalog file:
    /// `None` stands for a file that is missing, unreadable or not a catalog,
    /// and gives the empty catalog.
    pub fn load(found: Option<IPStore>) -> (store: Self)
        ensures
            match found {
                Some(read) => store == read,
                None => store.dsts@ == Seq::<Destination>::empty() && store.dead@ == Seq::<
                    Ipv4,
                >::empty(),
            },
    {
        match found {
            Some(read) => read,
            None => IPStore::new(),
        }
    }
}

impl Default for IPStore {
    fn default() -> (store: Self)
        ensures
            store.dsts@ == Seq::<Destination>::empty(),
            store.dead@ == Seq::<Ipv4>::empty(),
    {
        Self::new()
    }
}

} // verus!

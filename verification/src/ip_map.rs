//! A map keyed by IP address.
use std::collections::HashMap;
use vstd::prelude::*;

use crate::addr::IpAddr;

verus! {

/// A map from IP addresses to values: a map for each family.
#[derive(Debug)]
pub struct IpMap<V> {
    pub v4: HashMap<u32, V>,
    pub v6: HashMap<u128, V>,
}

impl<V> View for IpMap<V> {
    type V = Map<IpAddr, V>;

    open spec fn view(&self) -> Map<IpAddr, V> {
        Map::new(
            |ip: IpAddr|
                match ip {
                    IpAddr::V4(n) => self.v4@.dom().contains(n),
                    IpAddr::V6(n) => self.v6@.dom().contains(n),
                },
            |ip: IpAddr|
                match ip {
                    IpAddr::V4(n) => self.v4@[n],
                    IpAddr::V6(n) => self.v6@[n],
                },
        )
    }
}

impl<V> IpMap<V> {
    /// The addresses of a map are those of both families, and no more than finitely many.
    pub proof fn lemma_count(self)
        ensures
            self@.dom().finite(),
            self@.dom().len() == self.v4@.dom().len() + self.v6@.dom().len(),
    {
        let four = |n: u32| IpAddr::V4(n);
        let six = |n: u128| IpAddr::V6(n);
        let a = self.v4@.dom().map(four);
        let b = self.v6@.dom().map(six);
        vstd::set_lib::lemma_map_size(self.v4@.dom(), a, four);
        vstd::set_lib::lemma_map_size(self.v6@.dom(), b, six);
        assert forall|n: u32| self.v4@.dom().contains(n) implies #[trigger] a.contains(
            IpAddr::V4(n),
        ) by {
            assert(four(n) == IpAddr::V4(n));
        }
        assert forall|n: u128| self.v6@.dom().contains(n) implies #[trigger] b.contains(
            IpAddr::V6(n),
        ) by {
            assert(six(n) == IpAddr::V6(n));
        }
        assert(self@.dom() =~= a.union(b));
        vstd::set_lib::lemma_set_disjoint_lens(a, b);
    }

    /// Makes a map without entries.
    pub fn new() -> (res: Self)
        ensures
            res@ == Map::<IpAddr, V>::empty(),
    {
        let res = IpMap { v4: HashMap::new(), v6: HashMap::new() };
        assert(res@ =~= Map::<IpAddr, V>::empty());
        res
    }

    /// How many addresses the map holds.
    pub fn len(&self) -> (res: usize)
        requires
            self@.dom().len() <= usize::MAX,
        ensures
            res == self@.dom().len(),
    {
        proof {
            self.lemma_count();
        }
        self.v4.len() + self.v6.len()
    }

    /// Sets the value of an address, in place of the one that it had.
    pub fn insert(&mut self, ip: IpAddr, value: V)
        ensures
            final(self)@ == old(self)@.insert(ip, value),
    {
        match ip {
            IpAddr::V4(n) => {
                self.v4.insert(n, value);
            },
            IpAddr::V6(n) => {
                self.v6.insert(n, value);
            },
        }
        assert(self@ =~= old(self)@.insert(ip, value));
    }
}

impl<V: Copy> IpMap<V> {
    /// The value of an address, if it has one.
    pub fn get(&self, ip: IpAddr) -> (res: Option<V>)
        ensures
            res == if self@.dom().contains(ip) { Some(self@[ip]) } else { None },
    {
        let found = match ip {
            IpAddr::V4(n) => self.v4.get(&n),
            IpAddr::V6(n) => self.v6.get(&n),
        };
        match found {
            Some(value) => Some(*value),
            None => None,
        }
    }
}

} // verus!

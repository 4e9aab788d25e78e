//! The bridge's reserve ledger: the held June and Mahala amounts, with
//! their starting values kept for reference.
use vstd::prelude::*;

verus! {

/// The reserves of the bridge.
pub struct Reserves {
    june_reserve: i64,
    mahala_reserve: i64,
    initial_june: i64,
    initial_mahala: i64,
}

/// The reserves' observable numbers.
#[derive(Clone, Copy, Debug)]
pub struct ReserveStats {
    /// The current June reserve, in micro-units.
    pub june: i64,
    /// The current Mahala reserve, in micro-units.
    pub mahala: i64,
    /// The June reserve the bridge started with.
    pub initial_june: i64,
    /// The Mahala reserve the bridge started with.
    pub initial_mahala: i64,
}

impl Reserves {
    /// The current June reserve.
    pub closed spec fn spec_june(self) -> i64 {
        self.june_reserve
    }

    /// The current Mahala reserve.
    pub closed spec fn spec_mahala(self) -> i64 {
        self.mahala_reserve
    }

    /// The starting June reserve.
    pub closed spec fn spec_initial_june(self) -> i64 {
        self.initial_june
    }

    /// The starting Mahala reserve.
    pub closed spec fn spec_initial_mahala(self) -> i64 {
        self.initial_mahala
    }

    /// Creates the reserves at their starting values.
    pub fn new(june: i64, mahala: i64) -> (r: Self)
        ensures
            r.spec_june() == june,
            r.spec_mahala() == mahala,
            r.spec_initial_june() == june,
            r.spec_initial_mahala() == mahala,
    {
        Reserves { june_reserve: june, mahala_reserve: mahala, initial_june: june, initial_mahala: mahala }
    }

    /// The current June reserve.
    pub fn get_june(&self) -> (r: i64)
        ensures
            r == self.spec_june(),
    {
        self.june_reserve
    }

    /// The current Mahala reserve.
    pub fn get_mahala(&self) -> (r: i64)
        ensures
            r == self.spec_mahala(),
    {
        self.mahala_reserve
    }

    /// Adds a (possibly negative) amount to the June reserve.
    pub fn update_june(&mut self, amount: i64)
        requires
            i64::MIN as int <= old(self).spec_june() + amount <= i64::MAX as int,
        ensures
            final(self).spec_june() == old(self).spec_june() + amount,
            final(self).spec_mahala() == old(self).spec_mahala(),
            final(self).spec_initial_june() == old(self).spec_initial_june(),
            final(self).spec_initial_mahala() == old(self).spec_initial_mahala(),
    {
        self.june_reserve = self.june_reserve + amount;
    }

    /// Adds a (possibly negative) amount to the Mahala reserve.
    pub fn update_mahala(&mut self, amount: i64)
        requires
            i64::MIN as int <= old(self).spec_mahala() + amount <= i64::MAX as int,
        ensures
            final(self).spec_mahala() == old(self).spec_mahala() + amount,
            final(self).spec_june() == old(self).spec_june(),
            final(self).spec_initial_june() == old(self).spec_initial_june(),
            final(self).spec_initial_mahala() == old(self).spec_initial_mahala(),
    {
        self.mahala_reserve = self.mahala_reserve + amount;
    }

    /// The reserves' observable numbers.
    pub fn get_stats(&self) -> (r: ReserveStats)
        ensures
            r.june == self.spec_june(),
            r.mahala == self.spec_mahala(),
            r.initial_june == self.spec_initial_june(),
            r.initial_mahala == self.spec_initial_mahala(),
    {
        ReserveStats {
            june: self.june_reserve,
            mahala: self.mahala_reserve,
            initial_june: self.initial_june,
            initial_mahala: self.initial_mahala,
        }
    }
}

} // verus!

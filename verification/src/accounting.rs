use vstd::prelude::*;
use crate::dto::License;
use crate::heap::PriorityVec;
use crate::model::Treasure;

verus! {

/// What a worker can ask of the accounting actor. A `GetLicense` reply — the
/// whole pool, which is then cleared — is the return value of `handle`; the
/// caller sends it back on its own channel.
pub enum MessageForAccounting {
    TreasureToClaim(Treasure),
    GetLicense,
    LicenseExpired(u64),
}

/// The accounting state: treasures waiting to be cashed, coins, and the pool
/// of unissued licenses, capped at `max_concurrent_licenses` concurrently
/// active ones.
pub struct Accounting {
    pub treasures: PriorityVec<Treasure>,
    pub digs_pending: u64,
    pub active_licenses: u8,
    pub licenses: Vec<License>,
    pub coins: Vec<u64>,
    pub max_concurrent_licenses: u8,
}

impl Accounting {
    pub open spec fn wf(self) -> bool {
        self.treasures.wf()
    }

    pub fn new(max_concurrent_licenses: u8) -> (r: Accounting)
        ensures
            r.treasures@ == Seq::<Treasure>::empty(),
            r.digs_pending == 0,
            r.active_licenses == 0,
            r.licenses@ == Seq::<License>::empty(),
            r.coins@ == Seq::<u64>::empty(),
            r.max_concurrent_licenses == max_concurrent_licenses,
            r.wf(),
    {
        Accounting {
            treasures: PriorityVec::new(),
            digs_pending: 0,
            active_licenses: 0,
            licenses: Vec::new(),
            coins: Vec::new(),
            max_concurrent_licenses,
        }
    }

    /// One mailbox message. A treasure is enqueued for cashing; a license
    /// request is answered with the whole pool, which empties it — on an
    /// empty pool the reply is the empty vector; an expiry report frees one
    /// active-license slot and records the worker's backlog hint.
    pub fn handle(&mut self, msg: MessageForAccounting) -> (reply: Option<Vec<License>>)
        requires
            old(self).wf(),
            msg matches MessageForAccounting::LicenseExpired(_) ==> old(self).active_licenses
                >= 1,
        ensures
            final(self).wf(),
            final(self).max_concurrent_licenses == old(self).max_concurrent_licenses,
            final(self).coins@ == old(self).coins@,
            match msg {
                MessageForAccounting::TreasureToClaim(t) => {
                    &&& reply is None
                    &&& final(self).treasures@ == old(self).treasures@.push(t)
                    &&& final(self).licenses@ == old(self).licenses@
                    &&& final(self).active_licenses == old(self).active_licenses
                    &&& final(self).digs_pending == old(self).digs_pending
                },
                MessageForAccounting::GetLicense => {
                    &&& reply matches Some(given) && given@ == old(self).licenses@
                    &&& final(self).licenses@ == Seq::<License>::empty()
                    &&& final(self).treasures@ == old(self).treasures@
                    &&& final(self).active_licenses == old(self).active_licenses
                    &&& final(self).digs_pending == old(self).digs_pending
                },
                MessageForAccounting::LicenseExpired(hint) => {
                    &&& reply is None
                    &&& final(self).active_licenses == old(self).active_licenses - 1
                    &&& final(self).digs_pending == hint
                    &&& final(self).treasures@ == old(self).treasures@
                    &&& final(self).licenses@ == old(self).licenses@
                },
            },
    {
        match msg {
            MessageForAccounting::TreasureToClaim(t) => {
                self.treasures.push(t);
                None
            },
            MessageForAccounting::GetLicense => {
                let mut given: Vec<License> = Vec::new();
                core::mem::swap(&mut self.licenses, &mut given);
                Some(given)
            },
            MessageForAccounting::LicenseExpired(hint) => {
                self.active_licenses = self.active_licenses - 1;
                self.digs_pending = hint;
                None
            },
        }
    }

    /// Take every treasure out for cashing; the caller redeems each one
    /// (retrying until the judge accepts) and brings the coins back through
    /// `add_coins`.
    pub fn take_treasures(&mut self) -> (r: Vec<Treasure>)
        requires
            old(self).wf(),
        ensures
            final(self).wf(),
            r@ == old(self).treasures@,
            final(self).treasures@ == Seq::<Treasure>::empty(),
            final(self).digs_pending == old(self).digs_pending,
            final(self).active_licenses == old(self).active_licenses,
            final(self).licenses@ == old(self).licenses@,
            final(self).coins@ == old(self).coins@,
            final(self).max_concurrent_licenses == old(self).max_concurrent_licenses,
    {
        self.treasures.drain_all()
    }

    pub fn add_coins(&mut self, coins: Vec<u64>)
        requires
            old(self).wf(),
        ensures
            final(self).wf(),
            final(self).coins@ == old(self).coins@ + coins@,
            final(self).treasures@ == old(self).treasures@,
            final(self).digs_pending == old(self).digs_pending,
            final(self).active_licenses == old(self).active_licenses,
            final(self).licenses@ == old(self).licenses@,
            final(self).max_concurrent_licenses == old(self).max_concurrent_licenses,
    {
        let mut coins = coins;
        self.coins.append(&mut coins);
    }

    /// Decide whether to buy a license this tick, and with which coins: one
    /// purchase per tick, only below the cap, paying one coin when there is
    /// one — that coin leaves the pool now and is not refunded — and asking
    /// for a free license otherwise.
    pub fn plan_license_purchase(&mut self) -> (r: Option<Vec<u64>>)
        requires
            old(self).wf(),
        ensures
            final(self).wf(),
            final(self).treasures@ == old(self).treasures@,
            final(self).digs_pending == old(self).digs_pending,
            final(self).active_licenses == old(self).active_licenses,
            final(self).licenses@ == old(self).licenses@,
            final(self).max_concurrent_licenses == old(self).max_concurrent_licenses,
            old(self).active_licenses >= old(self).max_concurrent_licenses ==> r is None
                && final(self).coins@ == old(self).coins@,
            old(self).active_licenses < old(self).max_concurrent_licenses ==> {
                &&& r is Some
                &&& (old(self).coins@.len() > 0 ==> r.unwrap()@ == seq![old(self).coins@.last()]
                    && final(self).coins@ == old(self).coins@.drop_last())
                &&& (old(self).coins@.len() == 0 ==> r.unwrap()@ == Seq::<u64>::empty()
                    && final(self).coins@ == old(self).coins@)
            },
    {
        if self.active_licenses < self.max_concurrent_licenses {
            let mut payment: Vec<u64> = Vec::new();
            if let Some(c) = self.coins.pop() {
                payment.push(c);
            }
            Some(payment)
        } else {
            None
        }
    }

    /// Record a license the judge issued for the payment planned above.
    pub fn license_purchased(&mut self, lic: License)
        requires
            old(self).wf(),
            old(self).active_licenses < u8::MAX,
        ensures
            final(self).wf(),
            final(self).licenses@ == old(self).licenses@.push(lic),
            final(self).active_licenses == old(self).active_licenses + 1,
            final(self).treasures@ == old(self).treasures@,
            final(self).digs_pending == old(self).digs_pending,
            final(self).coins@ == old(self).coins@,
            final(self).max_concurrent_licenses == old(self).max_concurrent_licenses,
    {
        self.licenses.push(lic);
        self.active_licenses = self.active_licenses + 1;
    }
}

} // verus!

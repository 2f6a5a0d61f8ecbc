use vstd::prelude::*;
use crate::error::LedgerError;
use crate::identity::Identity;

verus! {

/// What the number in a balance update means.
#[derive(Clone, Copy, Debug, PartialEq, Eq, Structural)]
pub enum BalancePolicy {
    /// The number is the holder's new balance.
    Replace,
    /// The number is added to the holder's balance.
    Accumulate,
}

/// One holder and the balance that rewards are reckoned from.
#[derive(Clone, Copy, Debug, PartialEq, Eq)]
pub struct HolderEntry {
    pub holder: Identity,
    pub balance: u64,
}

/// The tracked balances, each holder once, in the order in which the holders
/// were first seen.
#[derive(Clone, Debug, PartialEq, Eq)]
pub struct HolderLedger {
    pub entries: Vec<HolderEntry>,
}

impl View for HolderLedger {
    type V = Seq<(Seq<u8>, u64)>;

    open spec fn view(&self) -> Seq<(Seq<u8>, u64)> {
        Seq::new(
            self.entries@.len(),
            |i: int| (self.entries@[i].holder@, self.entries@[i].balance),
        )
    }
}

/// Every holder is 32 bytes wide.
pub open spec fn holders_well_formed(entries: Seq<(Seq<u8>, u64)>) -> bool {
    forall|i: int| 0 <= i < entries.len() ==> (#[trigger] entries[i]).0.len() == 32
}

/// `holder` has an entry.
pub open spec fn holds(entries: Seq<(Seq<u8>, u64)>, holder: Seq<u8>) -> bool {
    exists|i: int| 0 <= i < entries.len() && (#[trigger] entries[i]).0 == holder
}

/// The first entry of `holder` is the one at `i`.
pub open spec fn first_position(entries: Seq<(Seq<u8>, u64)>, holder: Seq<u8>, i: int) -> bool {
    &&& 0 <= i < entries.len()
    &&& entries[i].0 == holder
    &&& forall|j: int| 0 <= j < i ==> (#[trigger] entries[j]).0 != holder
}

/// Where the first entry of `holder` stands, if there is one.
pub open spec fn position_of(entries: Seq<(Seq<u8>, u64)>, holder: Seq<u8>) -> int {
    choose|i: int| first_position(entries, holder, i)
}

/// The balance that is tracked for `holder`.
pub open spec fn tracked_balance(entries: Seq<(Seq<u8>, u64)>, holder: Seq<u8>) -> Option<u64> {
    if holds(entries, holder) {
        Some(entries[position_of(entries, holder)].1)
    } else {
        None
    }
}

/// The entries with the balance of `holder` set to `balance`: in place where
/// the holder has an entry, at the end where not.
pub open spec fn with_balance(
    entries: Seq<(Seq<u8>, u64)>,
    holder: Seq<u8>,
    balance: u64,
) -> Seq<(Seq<u8>, u64)> {
    if holds(entries, holder) {
        entries.update(position_of(entries, holder), (holder, balance))
    } else {
        entries.push((holder, balance))
    }
}

/// No holder has two entries.
pub open spec fn distinct(entries: Seq<(Seq<u8>, u64)>) -> bool {
    forall|i: int, j: int|
        0 <= i < j < entries.len() ==> (#[trigger] entries[i]).0 != (#[trigger] entries[j]).0
}

/// The balance after an update by `balance` under `policy`, or nothing where
/// the sum does not fit.
pub open spec fn updated_balance(
    current: Option<u64>,
    balance: u64,
    policy: BalancePolicy,
) -> Option<u64> {
    match policy {
        BalancePolicy::Replace => Some(balance),
        BalancePolicy::Accumulate => {
            let sum = (match current {
                Some(c) => c as int,
                None => 0int,
            }) + balance;
            if sum <= u64::MAX {
                Some(sum as u64)
            } else {
                None
            }
        },
    }
}

/// The entries with each holder once: a later entry of a holder overrides
/// the balance of the first and is dropped.
pub open spec fn normalized_holders(entries: Seq<(Seq<u8>, u64)>) -> Seq<(Seq<u8>, u64)>
    decreases entries.len(),
{
    if entries.len() == 0 {
        Seq::empty()
    } else {
        with_balance(normalized_holders(entries.drop_last()), entries.last().0, entries.last().1)
    }
}

/// A first position is the only first position.
pub proof fn lemma_first_position(entries: Seq<(Seq<u8>, u64)>, holder: Seq<u8>, i: int)
    requires
        first_position(entries, holder, i),
    ensures
        holds(entries, holder),
        position_of(entries, holder) == i,
{
    let p = position_of(entries, holder);
    assert(first_position(entries, holder, p));
    if p < i {
        assert(entries[p].0 != holder);
    }
    if i < p {
        assert(entries[i].0 != holder);
    }
}

/// A holder with an entry has a first one.
pub proof fn lemma_holds_has_position(entries: Seq<(Seq<u8>, u64)>, holder: Seq<u8>)
    requires
        holds(entries, holder),
    ensures
        first_position(entries, holder, position_of(entries, holder)),
{
    let w = choose|i: int| 0 <= i < entries.len() && (#[trigger] entries[i]).0 == holder;
    lemma_least_position(entries, holder, w);
}

proof fn lemma_least_position(entries: Seq<(Seq<u8>, u64)>, holder: Seq<u8>, w: int)
    requires
        0 <= w < entries.len(),
        entries[w].0 == holder,
    ensures
        exists|i: int| first_position(entries, holder, i),
    decreases w,
{
    if exists|j: int| 0 <= j < w && (#[trigger] entries[j]).0 == holder {
        let j = choose|j: int| 0 <= j < w && (#[trigger] entries[j]).0 == holder;
        lemma_least_position(entries, holder, j);
    } else {
        assert(first_position(entries, holder, w));
    }
}

/// Setting a balance: the holder then has that balance, every other holder
/// has what it had, no holder gains a second entry, and the ledger grows by
/// at most one entry.
pub proof fn lemma_with_balance(
    entries: Seq<(Seq<u8>, u64)>,
    holder: Seq<u8>,
    balance: u64,
    other: Seq<u8>,
)
    ensures
        tracked_balance(with_balance(entries, holder, balance), holder) == Some(balance),
        other != holder ==> tracked_balance(with_balance(entries, holder, balance), other)
            == tracked_balance(entries, other),
        distinct(entries) ==> distinct(with_balance(entries, holder, balance)),
        entries.len() <= with_balance(entries, holder, balance).len() <= entries.len() + 1,
        holders_well_formed(entries) && holder.len() == 32 ==> holders_well_formed(
            with_balance(entries, holder, balance),
        ),
{
    let after = with_balance(entries, holder, balance);
    if holds(entries, holder) {
        lemma_holds_has_position(entries, holder);
        let p = position_of(entries, holder);
        assert(first_position(after, holder, p)) by {
            assert forall|j: int| 0 <= j < p implies (#[trigger] after[j]).0 != holder by {
                assert(entries[j].0 != holder);
            }
        }
        lemma_first_position(after, holder, p);
        assert forall|i: int| 0 <= i < entries.len() implies (#[trigger] after[i]).0
            == entries[i].0 by {}
        if other != holder {
            lemma_same_holders(entries, after, other);
        }
        if distinct(entries) {
            assert forall|i: int, j: int| 0 <= i < j < after.len() implies (#[trigger] after[i]).0
                != (#[trigger] after[j]).0 by {
                assert(entries[i].0 != entries[j].0);
            }
        }
    } else {
        let p = entries.len() as int;
        assert(first_position(after, holder, p)) by {
            assert forall|j: int| 0 <= j < p implies (#[trigger] after[j]).0 != holder by {
                assert(entries[j].0 != holder);
            }
        }
        lemma_first_position(after, holder, p);
        if other != holder {
            if holds(entries, other) {
                lemma_holds_has_position(entries, other);
                let q = position_of(entries, other);
                assert(first_position(after, other, q)) by {
                    assert forall|j: int| 0 <= j < q implies (#[trigger] after[j]).0 != other by {
                        assert(entries[j].0 != other);
                    }
                }
                lemma_first_position(after, other, q);
            } else {
                if holds(after, other) {
                    let w = choose|i: int| 0 <= i < after.len() && (#[trigger] after[i]).0 == other;
                    assert(w < entries.len());
                    assert(entries[w].0 == other);
                }
            }
        }
        if distinct(entries) {
            assert forall|i: int, j: int| 0 <= i < j < after.len() implies (#[trigger] after[i]).0
                != (#[trigger] after[j]).0 by {
                if j < entries.len() {
                    assert(entries[i].0 != entries[j].0);
                } else {
                    assert(entries[i].0 != holder);
                }
            }
        }
    }
}

/// Two lists with the same holders at the same places, apart from the
/// balances of one holder, track the same balance for every other holder.
proof fn lemma_same_holders(
    before: Seq<(Seq<u8>, u64)>,
    after: Seq<(Seq<u8>, u64)>,
    other: Seq<u8>,
)
    requires
        before.len() == after.len(),
        forall|i: int| 0 <= i < before.len() ==> (#[trigger] after[i]).0 == before[i].0,
        forall|i: int|
            0 <= i < before.len() && (#[trigger] before[i]).0 == other ==> after[i] == before[i],
    ensures
        tracked_balance(after, other) == tracked_balance(before, other),
{
    if holds(before, other) {
        lemma_holds_has_position(before, other);
        let q = position_of(before, other);
        assert(before[q].0 == other);
        assert(first_position(after, other, q)) by {
            assert(after[q].0 == other);
            assert forall|j: int| 0 <= j < q implies (#[trigger] after[j]).0 != other by {
                assert(before[j].0 != other);
            }
        }
        lemma_first_position(after, other, q);
    } else {
        if holds(after, other) {
            let w = choose|i: int| 0 <= i < after.len() && (#[trigger] after[i]).0 == other;
            assert(before[w].0 == other);
        }
    }
}

/// What normalizing gives: each holder once, no more entries than before.
pub proof fn lemma_normalized_holders(entries: Seq<(Seq<u8>, u64)>)
    ensures
        distinct(normalized_holders(entries)),
        normalized_holders(entries).len() <= entries.len(),
        holders_well_formed(entries) ==> holders_well_formed(normalized_holders(entries)),
        distinct(entries) ==> normalized_holders(entries) == entries,
    decreases entries.len(),
{
    if entries.len() > 0 {
        let front = entries.drop_last();
        lemma_normalized_holders(front);
        lemma_with_balance(
            normalized_holders(front),
            entries.last().0,
            entries.last().1,
            entries.last().0,
        );
        if holders_well_formed(entries) {
            assert forall|i: int| 0 <= i < front.len() implies (#[trigger] front[i]).0.len()
                == 32 by {
                assert(entries[i].0.len() == 32);
            }
        }
        if distinct(entries) {
            assert forall|i: int, j: int| 0 <= i < j < front.len() implies (#[trigger] front[i]).0
                != (#[trigger] front[j]).0 by {
                assert(entries[i].0 != entries[j].0);
            }
            assert(!holds(front, entries.last().0)) by {
                if holds(front, entries.last().0) {
                    let w = choose|i: int|
                        0 <= i < front.len() && (#[trigger] front[i]).0 == entries.last().0;
                    assert(entries[w].0 != entries[entries.len() - 1].0);
                }
            }
            assert(normalized_holders(entries) =~= entries);
        }
    }
}

impl HolderLedger {
    /// The ledger holds each holder once.
    pub open spec fn well_formed(&self) -> bool {
        distinct(self@)
    }

    /// A ledger without entries.
    pub fn new() -> (ledger: HolderLedger)
        ensures
            ledger@ == Seq::<(Seq<u8>, u64)>::empty(),
            ledger.well_formed(),
    {
        let ledger = HolderLedger { entries: Vec::new() };
        assert(ledger@ =~= Seq::<(Seq<u8>, u64)>::empty());
        ledger
    }

    /// The number of entries.
    pub fn len(&self) -> (count: usize)
        ensures
            count == self@.len(),
    {
        self.entries.len()
    }

    /// Where the first entry of `holder` stands.
    pub fn find(&self, holder: &Identity) -> (r: Option<usize>)
        ensures
            match r {
                Some(i) => first_position(self@, holder@, i as int),
                None => !holds(self@, holder@),
            },
    {
        let mut i: usize = 0;
        while i < self.entries.len()
            invariant
                i <= self.entries@.len(),
                forall|j: int| 0 <= j < i ==> (#[trigger] self@[j]).0 != holder@,
            decreases self.entries@.len() - i,
        {
            if self.entries[i].holder.equals(holder) {
                return Some(i);
            }
            i += 1;
        }
        None
    }

    /// The balance that is tracked for `holder`.
    pub fn balance_of(&self, holder: &Identity) -> (r: Option<u64>)
        ensures
            r == tracked_balance(self@, holder@),
    {
        match self.find(holder) {
            Some(i) => {
                proof {
                    lemma_first_position(self@, holder@, i as int);
                }
                Some(self.entries[i].balance)
            },
            None => None,
        }
    }

    /// Updates the balance of `holder` by `balance` under `policy`. A sum
    /// that does not fit is refused and leaves the ledger as it was.
    pub fn update_holder_balance(
        &mut self,
        holder: Identity,
        balance: u64,
        policy: BalancePolicy,
    ) -> (r: Result<(), LedgerError>)
        ensures
            match updated_balance(tracked_balance(old(self)@, holder@), balance, policy) {
                Some(b) => r is Ok && final(self)@ == with_balance(old(self)@, holder@, b),
                None => r == Err::<(), LedgerError>(LedgerError::Overflow) && final(self)@ == old(
                    self,
                )@,
            },
            old(self).well_formed() ==> final(self).well_formed(),
            r is Ok ==> tracked_balance(final(self)@, holder@) == updated_balance(
                tracked_balance(old(self)@, holder@),
                balance,
                policy,
            ),
            forall|other: Seq<u8>|
                other != holder@ ==> #[trigger] tracked_balance(final(self)@, other)
                    == tracked_balance(old(self)@, other),
            final(self)@.len() == old(self)@.len() + (if r is Ok && !holds(old(self)@, holder@) {
                1int
            } else {
                0int
            }),
    {
        proof {
            match updated_balance(tracked_balance(self@, holder@), balance, policy) {
                Some(b) => {
                    lemma_with_balance(self@, holder@, b, holder@);
                    assert forall|other: Seq<u8>| other != holder@ implies #[trigger] tracked_balance(
                        with_balance(self@, holder@, b),
                        other,
                    ) == tracked_balance(self@, other) by {
                        lemma_with_balance(self@, holder@, b, other);
                    }
                },
                None => {},
            }
        }
        match self.find(&holder) {
            Some(i) => {
                proof {
                    lemma_first_position(self@, holder@, i as int);
                }
                let current = self.entries[i].balance;
                let next = match policy {
                    BalancePolicy::Replace => balance,
                    BalancePolicy::Accumulate => {
                        if balance > u64::MAX - current {
                            return Err(LedgerError::Overflow);
                        }
                        current + balance
                    },
                };
                self.entries.set(i, HolderEntry { holder, balance: next });
                assert(self@ =~= with_balance(old(self)@, holder@, next));
                Ok(())
            },
            None => {
                self.entries.push(HolderEntry { holder, balance });
                assert(self@ =~= with_balance(old(self)@, holder@, balance));
                Ok(())
            },
        }
    }

    /// The ledger with each holder once: a later entry of a holder overrides
    /// the balance of the first.
    pub fn normalized(&self) -> (ledger: HolderLedger)
        ensures
            ledger@ == normalized_holders(self@),
            ledger.well_formed(),
            ledger@.len() <= self@.len(),
            self.well_formed() ==> ledger@ == self@,
    {
        proof {
            lemma_normalized_holders(self@);
        }
        let mut ledger = HolderLedger::new();
        let mut i: usize = 0;
        while i < self.entries.len()
            invariant
                i <= self.entries@.len(),
                ledger@ == normalized_holders(self@.subrange(0, i as int)),
            decreases self.entries@.len() - i,
        {
            let entry = self.entries[i];
            let _ = ledger.update_holder_balance(entry.holder, entry.balance, BalancePolicy::Replace);
            i += 1;
            assert(self@.subrange(0, i as int).drop_last() =~= self@.subrange(0, i - 1));
        }
        assert(self@.subrange(0, i as int) =~= self@);
        ledger
    }
}

} // verus!

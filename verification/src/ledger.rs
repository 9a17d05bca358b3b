//! The shared ledger: one entry per distinct identifier, each carrying a
//! running sum and a running difference.
//!
//! The ledger is modelled as a mapping from identifier to [`Totals`]. One
//! accepted update folds into that mapping by [`apply_step`]: the sum grows by
//! `field1 + field2` and the difference shrinks by `field2 + field3`, both
//! starting from zero for an identifier that has no entry yet.
//! [`lemma_accumulated_totals`] states the accumulation law: over any sequence
//! of applied updates, however updates for other identifiers are interleaved,
//! an identifier's entry carries exactly the totals of its own updates, and an
//! identifier with no update has no entry at all.

use vstd::prelude::*;

verus! {

/// One identifier's running totals, as mathematical integers.
pub struct Totals {
    pub sum: int,
    pub difference: int,
}

/// One row of the ledger: an identifier with its running totals.
pub struct LedgerEntry {
    pub id: String,
    pub sum: i64,
    pub difference: i64,
}

impl LedgerEntry {
    /// The totals this row records.
    pub open spec fn totals(&self) -> Totals {
        Totals { sum: self.sum as int, difference: self.difference as int }
    }
}

/// Whether some row of `rows` carries `id`.
pub open spec fn has_id(rows: Seq<LedgerEntry>, id: Seq<char>) -> bool {
    exists|i: int| 0 <= i < rows.len() && rows[i].id@ == id
}

/// The totals of the row of `rows` that carries `id`.
pub open spec fn totals_of(rows: Seq<LedgerEntry>, id: Seq<char>) -> Totals
    recommends
        has_id(rows, id),
{
    let i = choose|i: int| 0 <= i < rows.len() && rows[i].id@ == id;
    rows[i].totals()
}

/// No identifier stands in two rows.
pub open spec fn unique_ids(rows: Seq<LedgerEntry>) -> bool {
    forall|i: int, j: int| 0 <= i < j < rows.len() ==> rows[i].id@ != rows[j].id@
}

/// The mapping a sequence of rows represents.
pub open spec fn map_of(rows: Seq<LedgerEntry>) -> Map<Seq<char>, Totals> {
    Map::new(|id: Seq<char>| has_id(rows, id), |id: Seq<char>| totals_of(rows, id))
}

/// The update rule: one accepted update folded into the mapping. An absent
/// identifier starts from zero totals; the sum grows by `field1 + field2` and
/// the difference shrinks by `field2 + field3`.
pub open spec fn apply_step(
    m: Map<Seq<char>, Totals>,
    id: Seq<char>,
    field1: int,
    field2: int,
    field3: int,
) -> Map<Seq<char>, Totals> {
    let prior = if m.contains_key(id) {
        m[id]
    } else {
        Totals { sum: 0, difference: 0 }
    };
    m.insert(
        id,
        Totals {
            sum: prior.sum + field1 + field2,
            difference: prior.difference - (field2 + field3),
        },
    )
}

/// An unrecoverable fault while updating the ledger.
#[derive(Clone, Copy, Debug, PartialEq, Eq, Structural)]
pub enum StateFault {
    /// A new running total left the representable range.
    TotalsOutOfRange,
}

proof fn lemma_unique_index(rows: Seq<LedgerEntry>, i: int, j: int)
    requires
        unique_ids(rows),
        0 <= i < rows.len(),
        0 <= j < rows.len(),
        rows[i].id@ == rows[j].id@,
    ensures
        i == j,
{
    if i < j {
        assert(rows[i].id@ != rows[j].id@);
    } else if j < i {
        assert(rows[j].id@ != rows[i].id@);
    }
}

proof fn lemma_totals_at(rows: Seq<LedgerEntry>, i: int)
    requires
        unique_ids(rows),
        0 <= i < rows.len(),
    ensures
        has_id(rows, rows[i].id@),
        totals_of(rows, rows[i].id@) == rows[i].totals(),
{
    assert(has_id(rows, rows[i].id@)) by {
        assert(0 <= i < rows.len() && rows[i].id@ == rows[i].id@);
    }
    let j = choose|j: int| 0 <= j < rows.len() && rows[j].id@ == rows[i].id@;
    lemma_unique_index(rows, i, j);
}

proof fn lemma_rows_update(rows: Seq<LedgerEntry>, i: int, e: LedgerEntry)
    requires
        unique_ids(rows),
        0 <= i < rows.len(),
        rows[i].id@ == e.id@,
    ensures
        unique_ids(rows.update(i, e)),
        map_of(rows.update(i, e)) == map_of(rows).insert(e.id@, e.totals()),
{
    let updated = rows.update(i, e);
    assert forall|p: int, q: int| 0 <= p < q < updated.len() implies updated[p].id@
        != updated[q].id@ by {
        assert(rows[p].id@ != rows[q].id@);
    }
    assert forall|k: Seq<char>| #[trigger] has_id(updated, k) == has_id(rows, k) by {
        if has_id(updated, k) {
            let j = choose|j: int| 0 <= j < updated.len() && updated[j].id@ == k;
            if j == i {
                assert(rows[i].id@ == k);
            } else {
                assert(rows[j].id@ == k);
            }
            assert(has_id(rows, k));
        }
        if has_id(rows, k) {
            let j = choose|j: int| 0 <= j < rows.len() && rows[j].id@ == k;
            if j == i {
                assert(updated[i].id@ == k);
            } else {
                assert(updated[j].id@ == k);
            }
            assert(has_id(updated, k));
        }
    }
    assert forall|k: Seq<char>| has_id(updated, k) implies #[trigger] totals_of(updated, k) == (
    if k == e.id@ {
        e.totals()
    } else {
        totals_of(rows, k)
    }) by {
        let j = choose|j: int| 0 <= j < updated.len() && updated[j].id@ == k;
        if k == e.id@ {
            lemma_unique_index(updated, j, i);
        } else {
            assert(j != i);
            assert(rows[j].id@ == k);
            let j2 = choose|j2: int| 0 <= j2 < rows.len() && rows[j2].id@ == k;
            lemma_unique_index(rows, j, j2);
        }
    }
    assert(has_id(updated, e.id@)) by {
        assert(0 <= i < updated.len() && updated[i].id@ == e.id@);
    }
    assert(map_of(updated) =~= map_of(rows).insert(e.id@, e.totals()));
}

proof fn lemma_rows_push(rows: Seq<LedgerEntry>, e: LedgerEntry)
    requires
        unique_ids(rows),
        !has_id(rows, e.id@),
    ensures
        unique_ids(rows.push(e)),
        map_of(rows.push(e)) == map_of(rows).insert(e.id@, e.totals()),
{
    let pushed = rows.push(e);
    let n = rows.len() as int;
    assert forall|p: int, q: int| 0 <= p < q < pushed.len() implies pushed[p].id@
        != pushed[q].id@ by {
        if q < n {
            assert(rows[p].id@ != rows[q].id@);
        } else {
            assert(pushed[q].id@ == e.id@);
            assert(!(0 <= p < rows.len() && rows[p].id@ == e.id@));
        }
    }
    assert forall|k: Seq<char>| #[trigger] has_id(pushed, k) == (has_id(rows, k) || k
        == e.id@) by {
        if has_id(pushed, k) {
            let j = choose|j: int| 0 <= j < pushed.len() && pushed[j].id@ == k;
            if j < n {
                assert(rows[j].id@ == k);
                assert(has_id(rows, k));
            }
        }
        if has_id(rows, k) {
            let j = choose|j: int| 0 <= j < rows.len() && rows[j].id@ == k;
            assert(pushed[j].id@ == k);
            assert(has_id(pushed, k));
        }
        if k == e.id@ {
            assert(0 <= n < pushed.len() && pushed[n].id@ == k);
            assert(has_id(pushed, k));
        }
    }
    assert forall|k: Seq<char>| has_id(pushed, k) implies #[trigger] totals_of(pushed, k) == (
    if k == e.id@ {
        e.totals()
    } else {
        totals_of(rows, k)
    }) by {
        let j = choose|j: int| 0 <= j < pushed.len() && pushed[j].id@ == k;
        if k == e.id@ {
            lemma_unique_index(pushed, j, n);
        } else {
            assert(j != n);
            assert(rows[j].id@ == k);
            let j2 = choose|j2: int| 0 <= j2 < rows.len() && rows[j2].id@ == k;
            lemma_unique_index(rows, j, j2);
        }
    }
    assert(map_of(pushed) =~= map_of(rows).insert(e.id@, e.totals()));
}

/// The shared ledger. Its view is the mapping from identifier to totals; an
/// identifier never updated has no key in the view.
pub struct Ledger {
    entries: Vec<LedgerEntry>,
}

impl View for Ledger {
    type V = Map<Seq<char>, Totals>;

    closed spec fn view(&self) -> Map<Seq<char>, Totals> {
        map_of(self.entries@)
    }
}

impl Ledger {
    #[verifier::type_invariant]
    spec fn wf(&self) -> bool {
        unique_ids(self.entries@)
    }

    /// An empty ledger: no identifier has an entry.
    pub fn new() -> (r: Ledger)
        ensures
            r@ == Map::<Seq<char>, Totals>::empty(),
    {
        let r = Ledger { entries: Vec::new() };
        proof {
            assert(r@ =~= Map::<Seq<char>, Totals>::empty());
        }
        r
    }

    fn find(&self, id: &String) -> (r: Option<usize>)
        ensures
            match r {
                Some(i) => i < self.entries@.len() && self.entries@[i as int].id@ == id@,
                None => !has_id(self.entries@, id@),
            },
    {
        let mut i: usize = 0;
        while i < self.entries.len()
            invariant
                i <= self.entries@.len(),
                forall|j: int| 0 <= j < i ==> self.entries@[j].id@ != id@,
            decreases self.entries@.len() - i,
        {
            if self.entries[i].id == *id {
                return Some(i);
            }
            i += 1;
        }
        None
    }

    /// A borrow of the entry for `id`: `Some` exactly when some update has
    /// been applied for `id`, and then it carries the recorded totals.
    pub fn get(&self, id: &String) -> (r: Option<&LedgerEntry>)
        ensures
            r is Some <==> self@.contains_key(id@),
            r matches Some(e) ==> e.id@ == id@ && e.totals() == self@[id@],
    {
        proof {
            use_type_invariant(&*self);
        }
        match self.find(id) {
            Some(i) => {
                proof {
                    lemma_totals_at(self.entries@, i as int);
                }
                Some(&self.entries[i])
            },
            None => None,
        }
    }

    /// The read-modify-write cycle of one accepted update: fold it into the
    /// entry for `id`, creating the entry from zero totals when absent.
    /// Fails, leaving the ledger unchanged, exactly when a new running total
    /// would not fit in `i64`.
    pub fn apply(&mut self, id: &String, field1: i64, field2: i64, field3: i64) -> (r: Result<
        LedgerEntry,
        StateFault,
    >)
        ensures
            ({
                let stepped = apply_step(
                    old(self)@,
                    id@,
                    field1 as int,
                    field2 as int,
                    field3 as int,
                );
                &&& (r is Ok <==> (i64::MIN <= stepped[id@].sum <= i64::MAX && i64::MIN
                    <= stepped[id@].difference <= i64::MAX))
                &&& (r matches Ok(e) ==> final(self)@ == stepped && e.id@ == id@ && e.totals()
                    == stepped[id@])
                &&& (r is Err ==> final(self)@ == old(self)@ && r == Err::<
                    LedgerEntry,
                    StateFault,
                >(StateFault::TotalsOutOfRange))
            }),
    {
        proof {
            use_type_invariant(&*self);
        }
        let found = self.find(id);
        let (prior_sum, prior_difference): (i64, i64) = match found {
            Some(i) => {
                proof {
                    lemma_totals_at(self.entries@, i as int);
                }
                (self.entries[i].sum, self.entries[i].difference)
            },
            None => (0, 0),
        };
        proof {
            let stepped = apply_step(old(self)@, id@, field1 as int, field2 as int, field3 as int);
            assert(stepped[id@].sum == prior_sum + field1 + field2);
            assert(stepped[id@].difference == prior_difference - (field2 + field3));
        }
        let wide_sum: i128 = prior_sum as i128 + field1 as i128 + field2 as i128;
        let wide_difference: i128 = prior_difference as i128 - (field2 as i128 + field3 as i128);
        if wide_sum < i64::MIN as i128 || wide_sum > i64::MAX as i128 || wide_difference
            < i64::MIN as i128 || wide_difference > i64::MAX as i128 {
            return Err(StateFault::TotalsOutOfRange);
        }
        let new_sum: i64 = wide_sum as i64;
        let new_difference: i64 = wide_difference as i64;
        let stored = LedgerEntry { id: id.clone(), sum: new_sum, difference: new_difference };
        let ghost rows = self.entries@;
        let ghost e = stored;
        let mut entries: Vec<LedgerEntry> = Vec::new();
        std::mem::swap(&mut entries, &mut self.entries);
        match found {
            Some(i) => {
                entries[i] = stored;
                proof {
                    lemma_rows_update(rows, i as int, e);
                }
            },
            None => {
                entries.push(stored);
                proof {
                    lemma_rows_push(rows, e);
                }
            },
        }
        self.entries = entries;
        Ok(LedgerEntry { id: id.clone(), sum: new_sum, difference: new_difference })
    }

    /// A consistent copy of every entry: one row per identifier in the view,
    /// each carrying that identifier's totals, no identifier twice. The order
    /// of the rows is not part of the contract.
    pub fn snapshot(&self) -> (r: Vec<LedgerEntry>)
        ensures
            unique_ids(r@),
            forall|i: int|
                0 <= i < r@.len() ==> #[trigger] self@.contains_key(r@[i].id@) && r@[i].totals()
                    == self@[r@[i].id@],
            forall|k: Seq<char>| self@.contains_key(k) ==> #[trigger] has_id(r@, k),
    {
        proof {
            use_type_invariant(&*self);
        }
        let mut r: Vec<LedgerEntry> = Vec::new();
        let mut i: usize = 0;
        while i < self.entries.len()
            invariant
                i <= self.entries@.len(),
                r@.len() == i,
                forall|j: int| 0 <= j < i ==> r@[j] == self.entries@[j],
            decreases self.entries@.len() - i,
        {
            let e = &self.entries[i];
            r.push(LedgerEntry { id: e.id.clone(), sum: e.sum, difference: e.difference });
            i += 1;
        }
        proof {
            assert(r@ =~= self.entries@);
            assert forall|j: int| 0 <= j < r@.len() implies #[trigger] self@.contains_key(
                r@[j].id@,
            ) && r@[j].totals() == self@[r@[j].id@] by {
                lemma_totals_at(self.entries@, j);
            }
        }
        r
    }
}

/// One update as a mathematical value: an identifier and three integers.
pub struct UpdateView {
    pub id: Seq<char>,
    pub field1: int,
    pub field2: int,
    pub field3: int,
}

/// The mapping after folding a whole sequence of updates into `m`, in order.
pub open spec fn apply_all(m: Map<Seq<char>, Totals>, us: Seq<UpdateView>) -> Map<
    Seq<char>,
    Totals,
>
    decreases us.len(),
{
    if us.len() == 0 {
        m
    } else {
        let u = us.last();
        apply_step(apply_all(m, us.drop_last()), u.id, u.field1, u.field2, u.field3)
    }
}

/// How many updates of `us` carry `id`.
pub open spec fn count_for(us: Seq<UpdateView>, id: Seq<char>) -> int
    decreases us.len(),
{
    if us.len() == 0 {
        0
    } else {
        count_for(us.drop_last(), id) + if us.last().id == id {
            1int
        } else {
            0int
        }
    }
}

/// The total of `field1 + field2` over the updates of `us` that carry `id`.
pub open spec fn added_total(us: Seq<UpdateView>, id: Seq<char>) -> int
    decreases us.len(),
{
    if us.len() == 0 {
        0
    } else {
        added_total(us.drop_last(), id) + if us.last().id == id {
            us.last().field1 + us.last().field2
        } else {
            0int
        }
    }
}

/// The total of `field2 + field3` over the updates of `us` that carry `id`.
pub open spec fn subtracted_total(us: Seq<UpdateView>, id: Seq<char>) -> int
    decreases us.len(),
{
    if us.len() == 0 {
        0
    } else {
        subtracted_total(us.drop_last(), id) + if us.last().id == id {
            us.last().field2 + us.last().field3
        } else {
            0int
        }
    }
}

proof fn lemma_count_nonneg(us: Seq<UpdateView>, id: Seq<char>)
    ensures
        count_for(us, id) >= 0,
    decreases us.len(),
{
    if us.len() > 0 {
        lemma_count_nonneg(us.drop_last(), id);
    }
}

proof fn lemma_zero_count_zero_totals(us: Seq<UpdateView>, id: Seq<char>)
    requires
        count_for(us, id) == 0,
    ensures
        added_total(us, id) == 0,
        subtracted_total(us, id) == 0,
    decreases us.len(),
{
    if us.len() > 0 {
        lemma_count_nonneg(us.drop_last(), id);
        assert(us.last().id != id);
        lemma_zero_count_zero_totals(us.drop_last(), id);
    }
}

/// The drain law: folding a non-empty sequence of updates equals folding its
/// oldest update first and then the rest, which is exactly how the worker
/// drains the dispatch queue, one oldest-first step at a time.
pub proof fn lemma_apply_all_oldest_first(m: Map<Seq<char>, Totals>, us: Seq<UpdateView>)
    requires
        us.len() > 0,
    ensures
        apply_all(m, us) == apply_all(
            apply_step(m, us.first().id, us.first().field1, us.first().field2, us.first().field3),
            us.drop_first(),
        ),
    decreases us.len(),
{
    reveal_with_fuel(apply_all, 3);
    let u = us.first();
    let m1 = apply_step(m, u.id, u.field1, u.field2, u.field3);
    if us.len() == 1 {
        assert(us.last() == us.first());
        assert(us.drop_last() =~= Seq::<UpdateView>::empty());
        assert(us.drop_first() =~= Seq::<UpdateView>::empty());
    } else {
        let prev = us.drop_last();
        let w = us.last();
        lemma_apply_all_oldest_first(m, prev);
        assert(prev.first() == u);
        assert(prev.drop_first() =~= us.drop_first().drop_last());
        assert(us.drop_first().last() == w);
        assert(apply_all(m, us) == apply_step(
            apply_all(m, prev),
            w.id,
            w.field1,
            w.field2,
            w.field3,
        ));
        assert(us.drop_first().len() > 0);
        assert(apply_all(m1, us.drop_first()) == apply_step(
            apply_all(m1, us.drop_first().drop_last()),
            w.id,
            w.field1,
            w.field2,
            w.field3,
        ));
        assert(apply_all(m1, us.drop_first().drop_last()) == apply_all(m1, prev.drop_first()));
    }
}

/// The accumulation law. Start from a mapping with no entry for `id` and fold
/// in any sequence of updates, for `id` and for other identifiers in any
/// interleaving: an entry for `id` exists exactly when the sequence holds an
/// update for `id`, and then its sum is the total of `field1 + field2` over
/// the updates for `id` and its difference is the negated total of their
/// `field2 + field3`.
pub proof fn lemma_accumulated_totals(
    m0: Map<Seq<char>, Totals>,
    us: Seq<UpdateView>,
    id: Seq<char>,
)
    requires
        !m0.contains_key(id),
    ensures
        apply_all(m0, us).contains_key(id) <==> count_for(us, id) > 0,
        apply_all(m0, us).contains_key(id) ==> apply_all(m0, us)[id] == (Totals {
            sum: added_total(us, id),
            difference: -subtracted_total(us, id),
        }),
    decreases us.len(),
{
    if us.len() > 0 {
        let prev = us.drop_last();
        lemma_accumulated_totals(m0, prev, id);
        lemma_count_nonneg(prev, id);
        let u = us.last();
        let m1 = apply_all(m0, prev);
        if u.id == id {
            if count_for(prev, id) == 0 {
                lemma_zero_count_zero_totals(prev, id);
            }
        } else {
            assert(apply_all(m0, us) == apply_step(m1, u.id, u.field1, u.field2, u.field3));
        }
    }
}

/// The absence law: with no update for `id` in the folded sequence, the
/// mapping holds no entry for `id` — absence, not a zero-valued entry.
pub proof fn lemma_zero_updates_no_entry(
    m0: Map<Seq<char>, Totals>,
    us: Seq<UpdateView>,
    id: Seq<char>,
)
    requires
        !m0.contains_key(id),
        count_for(us, id) == 0,
    ensures
        !apply_all(m0, us).contains_key(id),
{
    lemma_accumulated_totals(m0, us, id);
}

} // verus!

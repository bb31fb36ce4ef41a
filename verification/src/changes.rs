//! The override reconciliation engine: date-scoped replacements of single
//! recurring slots, self-cleaning on every list query.
//!
//! An override is keyed by the recurring slot it replaces (`schedule_id`);
//! creation performs no deduplication, so several overrides for one slot can
//! coexist. Listing a group's overrides deletes every override of the group
//! whose date has passed — one delete statement per collected id, each of
//! which must hit at least one row — and returns the rest. Batches are not
//! atomic: a failing step leaves the earlier steps applied.

use vstd::prelude::*;

use crate::calendar::Date;
use crate::calendar::TimeOfDay;
use crate::errors::AppError;
use crate::seq_util::lemma_filter_all;
use crate::seq_util::lemma_filter_push;

verus! {

/// A date-scoped override of one recurring slot.
#[derive(Debug)]
pub struct ScheduleChange {
    pub schedule_id: i64,
    pub group_id: i64,
    pub new_subject_id: i64,
    pub new_teacher_id: i64,
    pub date: Date,
    pub new_start_time: TimeOfDay,
    pub new_end_time: TimeOfDay,
    pub cabinet: String,
    pub is_canceled: bool,
}

impl Clone for ScheduleChange {
    fn clone(&self) -> (r: Self)
        ensures
            r == *self,
    {
        ScheduleChange {
            schedule_id: self.schedule_id,
            group_id: self.group_id,
            new_subject_id: self.new_subject_id,
            new_teacher_id: self.new_teacher_id,
            date: self.date,
            new_start_time: self.new_start_time,
            new_end_time: self.new_end_time,
            cabinet: self.cabinet.clone(),
            is_canceled: self.is_canceled,
        }
    }
}

/// Some stored override references this slot id.
pub open spec fn has_schedule_id(s: Seq<ScheduleChange>, id: i64) -> bool {
    exists|i: int| 0 <= i < s.len() && s[i].schedule_id == id
}

/// The store without any override referencing `id`: what one delete
/// statement for that id leaves behind.
pub open spec fn without_schedule_id(s: Seq<ScheduleChange>, id: i64) -> Seq<ScheduleChange> {
    s.filter(|c: ScheduleChange| c.schedule_id != id)
}

/// The overrides of one group whose date has passed, in store order.
pub open spec fn expired_of_group(s: Seq<ScheduleChange>, group_id: i64, today: Date) -> Seq<
    ScheduleChange,
> {
    s.filter(|c: ScheduleChange| c.group_id == group_id && c.date.spec_before(today))
}

/// The slot ids the sweep will delete, in the order it collects them.
pub open spec fn expired_ids(s: Seq<ScheduleChange>, group_id: i64, today: Date) -> Seq<i64> {
    expired_of_group(s, group_id, today).map_values(|c: ScheduleChange| c.schedule_id)
}

/// The overrides of one group still in effect on `today`: what the list
/// call returns.
pub open spec fn current_changes(s: Seq<ScheduleChange>, group_id: i64, today: Date) -> Seq<
    ScheduleChange,
> {
    s.filter(|c: ScheduleChange| c.group_id == group_id && !c.date.spec_before(today))
}

/// The store after the first `n` of the one-id-at-a-time deletes have run.
pub open spec fn after_deletes(s: Seq<ScheduleChange>, ids: Seq<i64>, n: int) -> Seq<
    ScheduleChange,
>
    decreases n,
{
    if n <= 0 {
        s
    } else {
        without_schedule_id(after_deletes(s, ids, n - 1), ids[n - 1])
    }
}

/// Each of the first `n` deletes found at least one row when its turn came.
pub open spec fn deletes_succeed_upto(s: Seq<ScheduleChange>, ids: Seq<i64>, n: int) -> bool {
    forall|m: int| 0 <= m < n ==> has_schedule_id(after_deletes(s, ids, m), #[trigger] ids[m])
}

/// What one run of the list query may do: `r` is the call's outcome, the
/// store moved from `s0` to `s1`, judged against the calendar day `today`.
/// The call deletes the expired overrides of the group id by id — each
/// must hit a row, so a repeated id aborts part-way — and on success
/// returns the group's overrides still in effect, judged against the
/// snapshot read before the sweep.
pub open spec fn list_outcome(
    s0: Seq<ScheduleChange>,
    s1: Seq<ScheduleChange>,
    r: Result<Vec<ScheduleChange>, AppError>,
    group_id: i64,
    today: Date,
) -> bool {
    let ids = expired_ids(s0, group_id, today);
    &&& (r is Ok <==> deletes_succeed_upto(s0, ids, ids.len() as int))
    &&& (r is Ok ==> s1 == after_deletes(s0, ids, ids.len() as int) && r->Ok_0@
        == current_changes(s0, group_id, today))
    &&& (r is Err ==> r == Err::<Vec<ScheduleChange>, AppError>(AppError::NotFound) && exists|
        j: int,
    |
        0 <= j < ids.len() && #[trigger] deletes_succeed_upto(s0, ids, j) && !has_schedule_id(
            after_deletes(s0, ids, j),
            ids[j],
        ) && s1 == after_deletes(s0, ids, j))
}

/// The override store.
#[derive(Debug)]
pub struct ChangeStore {
    changes: Vec<ScheduleChange>,
}

impl View for ChangeStore {
    type V = Seq<ScheduleChange>;

    closed spec fn view(&self) -> Seq<ScheduleChange> {
        self.changes@
    }
}

impl ChangeStore {
    /// An empty store.
    pub fn init() -> (r: Self)
        ensures
            r@ =~= Seq::<ScheduleChange>::empty(),
    {
        ChangeStore { changes: Vec::new() }
    }

    /// One delete statement: removes every override referencing `id` and
    /// reports whether any row was hit.
    fn purge_schedule_id(&mut self, id: i64) -> (found: bool)
        ensures
            final(self)@ == without_schedule_id(old(self)@, id),
            found == has_schedule_id(old(self)@, id),
    {
        let n = self.changes.len();
        let mut kept: Vec<ScheduleChange> = Vec::new();
        let mut found = false;
        let mut k: usize = 0;
        while k < n
            invariant
                self@ == old(self)@,
                n == self.changes.len(),
                k <= n,
                kept@ == without_schedule_id(old(self)@.subrange(0, k as int), id),
                found == has_schedule_id(old(self)@.subrange(0, k as int), id),
            decreases n - k,
        {
            let ghost pre = old(self)@.subrange(0, k as int);
            let ghost e = old(self)@[k as int];
            if self.changes[k].schedule_id != id {
                kept.push(self.changes[k].clone());
            } else {
                found = true;
            }
            proof {
                assert(old(self)@.subrange(0, k as int + 1) =~= pre.push(e));
                lemma_filter_push(pre, |c: ScheduleChange| c.schedule_id != id, e);
                if e.schedule_id == id {
                    assert(pre.push(e)[k as int] == e);
                } else {
                    assert forall|i: int|
                        0 <= i < pre.push(e).len() && pre.push(e)[i].schedule_id == id
                        implies has_schedule_id(pre, id) by {
                        assert(pre[i] == pre.push(e)[i]);
                    }
                }
            }
            k = k + 1;
        }
        proof {
            assert(old(self)@.subrange(0, n as int) =~= old(self)@);
        }
        self.changes = kept;
        found
    }

    /// The list query with its built-in sweep: collects the group's
    /// overrides, deletes the expired ones id by id (each delete must hit a
    /// row, so a repeated id aborts the call part-way, as the store's
    /// statement-at-a-time semantics does), and returns the overrides of
    /// the group whose date has not passed — judged against the snapshot
    /// read before the sweep.
    pub fn get_schedule_changes(&mut self, group_id: i64, today: Date) -> (r: Result<
        Vec<ScheduleChange>,
        AppError,
    >)
        ensures
            list_outcome(old(self)@, final(self)@, r, group_id, today),
    {
        let n = self.changes.len();
        let mut expired: Vec<i64> = Vec::new();
        let mut kept: Vec<ScheduleChange> = Vec::new();
        let mut k: usize = 0;
        while k < n
            invariant
                self@ == old(self)@,
                n == self.changes.len(),
                k <= n,
                expired@ == expired_ids(old(self)@.subrange(0, k as int), group_id, today),
                kept@ == current_changes(old(self)@.subrange(0, k as int), group_id, today),
            decreases n - k,
        {
            let ghost pre = old(self)@.subrange(0, k as int);
            let ghost e = old(self)@[k as int];
            let c = &self.changes[k];
            if c.group_id == group_id {
                if c.date.before(&today) {
                    expired.push(c.schedule_id);
                } else {
                    kept.push(c.clone());
                }
            }
            proof {
                assert(old(self)@.subrange(0, k as int + 1) =~= pre.push(e));
                lemma_filter_push(
                    pre,
                    |c: ScheduleChange| c.group_id == group_id && c.date.spec_before(today),
                    e,
                );
                lemma_filter_push(
                    pre,
                    |c: ScheduleChange| c.group_id == group_id && !c.date.spec_before(today),
                    e,
                );
                if e.group_id == group_id && e.date.spec_before(today) {
                    assert(expired_ids(pre.push(e), group_id, today) =~= expired_ids(
                        pre,
                        group_id,
                        today,
                    ).push(e.schedule_id));
                } else {
                    assert(expired_ids(pre.push(e), group_id, today) =~= expired_ids(
                        pre,
                        group_id,
                        today,
                    ));
                }
            }
            k = k + 1;
        }
        proof {
            assert(old(self)@.subrange(0, n as int) =~= old(self)@);
        }
        let m = expired.len();
        let mut j: usize = 0;
        while j < m
            invariant
                m == expired.len(),
                j <= m,
                expired@ == expired_ids(old(self)@, group_id, today),
                kept@ == current_changes(old(self)@, group_id, today),
                self@ == after_deletes(old(self)@, expired@, j as int),
                deletes_succeed_upto(old(self)@, expired@, j as int),
            decreases m - j,
        {
            let ghost state_before = self@;
            let found = self.purge_schedule_id(expired[j]);
            if !found {
                proof {
                    lemma_filter_all(state_before, |c: ScheduleChange| c.schedule_id != expired@[j as int]);
                    assert(self@ == after_deletes(old(self)@, expired@, j as int));
                    if deletes_succeed_upto(old(self)@, expired@, expired@.len() as int) {
                        assert(has_schedule_id(
                            after_deletes(old(self)@, expired@, j as int),
                            expired@[j as int],
                        ));
                    }
                }
                return Err(AppError::NotFound);
            }
            proof {
                assert(after_deletes(old(self)@, expired@, j as int + 1) == without_schedule_id(
                    after_deletes(old(self)@, expired@, j as int),
                    expired@[j as int],
                ));
                assert forall|mm: int| 0 <= mm < j as int + 1 implies has_schedule_id(
                    after_deletes(old(self)@, expired@, mm),
                    #[trigger] expired@[mm],
                ) by {
                    if mm < j as int {
                        assert(deletes_succeed_upto(old(self)@, expired@, j as int));
                    }
                }
            }
            j = j + 1;
        }
        Ok(kept)
    }

    /// The list query against the server's own calendar day: reads the
    /// current local date and runs the sweep-and-list against it. Which day
    /// that is depends on the clock, so the contract promises the outcome
    /// for some valid calendar day.
    pub fn get_schedule_changes_now(&mut self, group_id: i64) -> (r: Result<
        Vec<ScheduleChange>,
        AppError,
    >)
        ensures
            exists|today: Date|
                (#[trigger] today.valid()) && list_outcome(
                    old(self)@,
                    final(self)@,
                    r,
                    group_id,
                    today,
                ),
    {
        let today = crate::calendar::today_local();
        let r = self.get_schedule_changes(group_id, today);
        proof {
            assert(today.valid() && list_outcome(old(self)@, self@, r, group_id, today));
        }
        r
    }

    /// Inserts every provided override verbatim, in order, and echoes the
    /// input back. No deduplication against stored overrides.
    pub fn add_schedule_changes(&mut self, schedule_changes: Vec<ScheduleChange>) -> (r: Vec<
        ScheduleChange,
    >)
        ensures
            final(self)@ =~= old(self)@ + schedule_changes@,
            r@ == schedule_changes@,
    {
        let n = schedule_changes.len();
        let mut k: usize = 0;
        while k < n
            invariant
                n == schedule_changes.len(),
                k <= n,
                self@ =~= old(self)@ + schedule_changes@.subrange(0, k as int),
            decreases n - k,
        {
            self.changes.push(schedule_changes[k].clone());
            proof {
                assert(schedule_changes@.subrange(0, k as int + 1) =~= schedule_changes@.subrange(
                    0,
                    k as int,
                ).push(schedule_changes@[k as int]));
            }
            k = k + 1;
        }
        proof {
            assert(schedule_changes@.subrange(0, n as int) =~= schedule_changes@);
        }
        schedule_changes
    }

    /// Deletes overrides by slot id, one id at a time; the first id that
    /// hits no row aborts the call with `NotFound`, leaving earlier ids
    /// already deleted and later ids untouched.
    pub fn delete_schedule_changes(&mut self, schedule_ids: &Vec<i64>) -> (r: Result<i64, AppError>)
        ensures
            r is Ok <==> deletes_succeed_upto(
                old(self)@,
                schedule_ids@,
                schedule_ids@.len() as int,
            ),
            r is Ok ==> r == Ok::<i64, AppError>(200) && final(self)@ == after_deletes(
                old(self)@,
                schedule_ids@,
                schedule_ids@.len() as int,
            ),
            r is Err ==> r == Err::<i64, AppError>(AppError::NotFound) && exists|j: int|
                0 <= j < schedule_ids@.len() && #[trigger] deletes_succeed_upto(
                    old(self)@,
                    schedule_ids@,
                    j,
                ) && !has_schedule_id(after_deletes(old(self)@, schedule_ids@, j), schedule_ids@[j])
                && final(self)@ == after_deletes(old(self)@, schedule_ids@, j),
    {
        let m = schedule_ids.len();
        let mut j: usize = 0;
        while j < m
            invariant
                m == schedule_ids.len(),
                j <= m,
                self@ == after_deletes(old(self)@, schedule_ids@, j as int),
                deletes_succeed_upto(old(self)@, schedule_ids@, j as int),
            decreases m - j,
        {
            let ghost state_before = self@;
            let found = self.purge_schedule_id(schedule_ids[j]);
            if !found {
                proof {
                    lemma_filter_all(
                        state_before,
                        |c: ScheduleChange| c.schedule_id != schedule_ids@[j as int],
                    );
                    assert(self@ == after_deletes(old(self)@, schedule_ids@, j as int));
                    if deletes_succeed_upto(old(self)@, schedule_ids@, schedule_ids@.len() as int) {
                        assert(has_schedule_id(
                            after_deletes(old(self)@, schedule_ids@, j as int),
                            schedule_ids@[j as int],
                        ));
                    }
                }
                return Err(AppError::NotFound);
            }
            proof {
                assert(after_deletes(old(self)@, schedule_ids@, j as int + 1)
                    == without_schedule_id(
                    after_deletes(old(self)@, schedule_ids@, j as int),
                    schedule_ids@[j as int],
                ));
                assert forall|mm: int| 0 <= mm < j as int + 1 implies has_schedule_id(
                    after_deletes(old(self)@, schedule_ids@, mm),
                    #[trigger] schedule_ids@[mm],
                ) by {
                    if mm < j as int {
                        assert(deletes_succeed_upto(old(self)@, schedule_ids@, j as int));
                    }
                }
            }
            j = j + 1;
        }
        Ok(200)
    }

    /// Updates every stored override whose slot id matches the input — the
    /// slot id is the natural key, so normally one row — to the input's
    /// fields, and returns the input unchanged without re-reading the
    /// store. `NotFound` when no row matches, with the store unchanged.
    pub fn edit_schedule_changes(&mut self, new_schedule_change: &ScheduleChange) -> (r: Result<
        ScheduleChange,
        AppError,
    >)
        ensures
            final(self)@.len() == old(self)@.len(),
            forall|i: int|
                0 <= i < old(self)@.len() && (#[trigger] old(self)@[i]).schedule_id
                    == new_schedule_change.schedule_id ==> final(self)@[i] == *new_schedule_change,
            forall|i: int|
                0 <= i < old(self)@.len() && (#[trigger] old(self)@[i]).schedule_id
                    != new_schedule_change.schedule_id ==> final(self)@[i] == old(self)@[i],
            r is Ok <==> has_schedule_id(old(self)@, new_schedule_change.schedule_id),
            r is Ok ==> r == Ok::<ScheduleChange, AppError>(*new_schedule_change),
            r is Err ==> r == Err::<ScheduleChange, AppError>(AppError::NotFound),
    {
        let n = self.changes.len();
        let mut found = false;
        let mut k: usize = 0;
        while k < n
            invariant
                n == self.changes.len(),
                self@.len() == old(self)@.len(),
                k <= n,
                found == has_schedule_id(old(self)@.subrange(0, k as int),
                    new_schedule_change.schedule_id),
                forall|i: int| k <= i < old(self)@.len() ==> self@[i] == old(self)@[i],
                forall|i: int|
                    0 <= i < k && (#[trigger] old(self)@[i]).schedule_id
                        == new_schedule_change.schedule_id ==> self@[i] == *new_schedule_change,
                forall|i: int|
                    0 <= i < k && (#[trigger] old(self)@[i]).schedule_id
                        != new_schedule_change.schedule_id ==> self@[i] == old(self)@[i],
            decreases n - k,
        {
            let ghost pre = old(self)@.subrange(0, k as int);
            if self.changes[k].schedule_id == new_schedule_change.schedule_id {
                self.changes.set(k, new_schedule_change.clone());
                found = true;
                proof {
                    assert(old(self)@.subrange(0, k as int + 1)[k as int] == old(self)@[k as int]);
                }
            } else {
                proof {
                    assert forall|i: int|
                        0 <= i < k as int + 1 && (#[trigger] old(self)@.subrange(
                            0,
                            k as int + 1,
                        )[i]).schedule_id == new_schedule_change.schedule_id
                        implies has_schedule_id(pre, new_schedule_change.schedule_id) by {
                        assert(pre[i] == old(self)@[i]);
                    }
                }
            }
            proof {
                if has_schedule_id(pre, new_schedule_change.schedule_id) {
                    let w = choose|i: int|
                        0 <= i < pre.len() && pre[i].schedule_id
                            == new_schedule_change.schedule_id;
                    assert(old(self)@.subrange(0, k as int + 1)[w] == pre[w]);
                }
            }
            k = k + 1;
        }
        proof {
            assert(old(self)@.subrange(0, n as int) =~= old(self)@);
        }
        if found {
            Ok(new_schedule_change.clone())
        } else {
            Err(AppError::NotFound)
        }
    }

    /// For each requested slot id, some stored override referencing it; the
    /// first id with no match fails the whole call with `NotFound`. Which
    /// matching row is picked per id is left open, as the backing store
    /// leaves it open. No side effect.
    pub fn get_changes_by_ids(&self, schedule_ids: &Vec<i64>) -> (r: Result<
        Vec<ScheduleChange>,
        AppError,
    >)
        ensures
            r is Ok <==> (forall|j: int|
                0 <= j < schedule_ids@.len() ==> has_schedule_id(self@, #[trigger] schedule_ids@[j])),
            r is Ok ==> r->Ok_0@.len() == schedule_ids@.len() && (forall|j: int|
                0 <= j < schedule_ids@.len() ==> self@.contains(#[trigger] r->Ok_0@[j])
                    && r->Ok_0@[j].schedule_id == schedule_ids@[j]),
            r is Err ==> r == Err::<Vec<ScheduleChange>, AppError>(AppError::NotFound),
    {
        let m = schedule_ids.len();
        let mut out: Vec<ScheduleChange> = Vec::new();
        let mut j: usize = 0;
        while j < m
            invariant
                m == schedule_ids.len(),
                j <= m,
                out@.len() == j,
                forall|i: int|
                    0 <= i < j ==> self@.contains(#[trigger] out@[i]) && out@[i].schedule_id
                        == schedule_ids@[i],
                forall|i: int| 0 <= i < j ==> has_schedule_id(self@, #[trigger] schedule_ids@[i]),
            decreases m - j,
        {
            let id = schedule_ids[j];
            let n = self.changes.len();
            let mut k: usize = 0;
            let mut item: Option<ScheduleChange> = None;
            while k < n
                invariant
                    n == self.changes.len(),
                    k <= n,
                    item is None ==> forall|i: int| 0 <= i < k ==> self@[i].schedule_id != id,
                    item matches Some(c) ==> self@.contains(c) && c.schedule_id == id,
                decreases n - k,
            {
                if self.changes[k].schedule_id == id {
                    let c = self.changes[k].clone();
                    proof {
                        assert(self@.contains(self@[k as int]));
                    }
                    item = Some(c);
                    k = n;
                } else {
                    k = k + 1;
                }
            }
            match item {
                None => {
                    return Err(AppError::NotFound);
                },
                Some(c) => {
                    out.push(c);
                },
            }
            j = j + 1;
        }
        Ok(out)
    }
}

/// Running the one-id-at-a-time deletes is the same as dropping, in one
/// stroke, every override whose slot id is among the ids processed so far.
pub proof fn lemma_after_deletes_filter(s: Seq<ScheduleChange>, ids: Seq<i64>, n: int)
    requires
        0 <= n <= ids.len(),
    ensures
        after_deletes(s, ids, n) =~= s.filter(
            |c: ScheduleChange| !ids.subrange(0, n).contains(c.schedule_id),
        ),
    decreases n,
{
    if n == 0 {
        assert forall|i: int|
            0 <= i < s.len() implies (|c: ScheduleChange| !ids.subrange(0, 0).contains(
            c.schedule_id,
        ))(#[trigger] s[i]) by {
            if ids.subrange(0, 0).contains(s[i].schedule_id) {
                let j = choose|j: int|
                    0 <= j < ids.subrange(0, 0).len() && ids.subrange(0, 0)[j]
                        == s[i].schedule_id;
            }
        }
        crate::seq_util::lemma_filter_all(
            s,
            |c: ScheduleChange| !ids.subrange(0, 0).contains(c.schedule_id),
        );
    } else {
        lemma_after_deletes_filter(s, ids, n - 1);
        let p_prev = |c: ScheduleChange| !ids.subrange(0, n - 1).contains(c.schedule_id);
        let q = |c: ScheduleChange| c.schedule_id != ids[n - 1];
        let p_now = |c: ScheduleChange| !ids.subrange(0, n).contains(c.schedule_id);
        assert forall|x: ScheduleChange| #[trigger] p_now(x) == (p_prev(x) && q(x)) by {
            assert(ids.subrange(0, n) =~= ids.subrange(0, n - 1).push(ids[n - 1]));
            crate::seq_util::lemma_contains_push(
                ids.subrange(0, n - 1),
                ids[n - 1],
                x.schedule_id,
            );
        }
        crate::seq_util::lemma_filter_filter(s, p_prev, q, p_now);
        assert(after_deletes(s, ids, n) == without_schedule_id(
            after_deletes(s, ids, n - 1),
            ids[n - 1],
        ));
        assert(after_deletes(s, ids, n - 1).filter(q) == s.filter(p_prev).filter(q));
    }
}

/// The sweep built into the list query is idempotent within one calendar
/// day: when no two expired overrides of the group share a slot id and no
/// override that should survive shares a slot id with an expired one of
/// the group, the first list call succeeds, the second finds nothing left
/// to delete, and both return the same surviving overrides.
pub proof fn lemma_sweep_idempotent(s: Seq<ScheduleChange>, group_id: i64, today: Date)
    requires
        expired_ids(s, group_id, today).no_duplicates(),
        forall|i: int|
            0 <= i < s.len() && expired_ids(s, group_id, today).contains(
                (#[trigger] s[i]).schedule_id,
            ) ==> s[i].group_id == group_id && s[i].date.spec_before(today),
    ensures
        deletes_succeed_upto(
            s,
            expired_ids(s, group_id, today),
            expired_ids(s, group_id, today).len() as int,
        ),
        ({
            let swept = after_deletes(
                s,
                expired_ids(s, group_id, today),
                expired_ids(s, group_id, today).len() as int,
            );
            &&& expired_ids(swept, group_id, today) =~= Seq::<i64>::empty()
            &&& current_changes(swept, group_id, today) =~= current_changes(s, group_id, today)
        }),
{
    let ids = expired_ids(s, group_id, today);
    let gexp = |c: ScheduleChange| c.group_id == group_id && c.date.spec_before(today);
    let exp = s.filter(gexp);
    assert(exp.map_values(|c: ScheduleChange| c.schedule_id) == ids);
    crate::seq_util::lemma_filter_membership(s, gexp);
    // each delete finds its row: the m-th expired override still stands
    // when the m-th id's turn comes, since earlier ids are all different
    assert forall|m: int|
        0 <= m < ids.len() implies has_schedule_id(after_deletes(s, ids, m), #[trigger] ids[m]) by {
        lemma_after_deletes_filter(s, ids, m);
        let pred = |c: ScheduleChange| !ids.subrange(0, m).contains(c.schedule_id);
        assert(s.contains(exp[m]));
        let i = choose|i: int| 0 <= i < s.len() && s[i] == exp[m];
        assert(ids[m] == exp[m].schedule_id);
        if ids.subrange(0, m).contains(exp[m].schedule_id) {
            let j = choose|j: int|
                0 <= j < ids.subrange(0, m).len() && ids.subrange(0, m)[j] == exp[m].schedule_id;
            assert(ids[j] == ids[m]);
            assert(false);
        }
        s.lemma_filter_contains(pred, i);
        assert(after_deletes(s, ids, m).contains(exp[m]));
        let w = choose|w: int|
            0 <= w < after_deletes(s, ids, m).len() && after_deletes(s, ids, m)[w] == exp[m];
        assert(after_deletes(s, ids, m)[w].schedule_id == ids[m]);
    }
    // the swept store has no expired override of the group left
    lemma_after_deletes_filter(s, ids, ids.len() as int);
    let pfull = |c: ScheduleChange| !ids.subrange(0, ids.len() as int).contains(c.schedule_id);
    let swept = after_deletes(s, ids, ids.len() as int);
    assert(ids.subrange(0, ids.len() as int) =~= ids);
    assert forall|i: int| 0 <= i < swept.len() implies !gexp(#[trigger] swept[i]) by {
        s.lemma_filter_pred(pfull, i);
        if gexp(swept[i]) {
            crate::seq_util::lemma_filter_membership(s, pfull);
            assert(s.contains(swept[i]));
            let j = choose|j: int| 0 <= j < s.len() && s[j] == swept[i];
            s.lemma_filter_contains(gexp, j);
            let e = choose|e: int| 0 <= e < exp.len() && exp[e] == swept[i];
            assert(ids[e] == swept[i].schedule_id);
            assert(ids.contains(swept[i].schedule_id));
            assert(false);
        }
    }
    crate::seq_util::lemma_filter_none(swept, gexp);
    assert(expired_of_group(swept, group_id, today) =~= Seq::<ScheduleChange>::empty());
    assert(expired_ids(swept, group_id, today) =~= Seq::<i64>::empty());
    // and it serves the same surviving overrides as the first call did
    let keep = |c: ScheduleChange| c.group_id == group_id && !c.date.spec_before(today);
    assert forall|i: int| 0 <= i < s.len() && keep(#[trigger] s[i]) implies pfull(s[i]) by {
        if ids.subrange(0, ids.len() as int).contains(s[i].schedule_id) {
            assert(ids.contains(s[i].schedule_id));
        }
    }
    crate::seq_util::lemma_filter_restrict(s, pfull, keep);
    assert(current_changes(swept, group_id, today) == swept.filter(keep));
    assert(swept.filter(keep) == s.filter(pfull).filter(keep));
}

/// First-seen deduplication of a sequence of ids, preserving encounter
/// order.
pub open spec fn dedup_first_seen(s: Seq<i64>) -> Seq<i64>
    decreases s.len(),
{
    if s.len() == 0 {
        Seq::empty()
    } else {
        let d = dedup_first_seen(s.drop_last());
        if d.contains(s.last()) {
            d
        } else {
            d.push(s.last())
        }
    }
}

/// The notification targets a batch of overrides touches: the distinct
/// group ids and the distinct replacement-teacher ids, each in first-seen
/// order.
pub fn notification_targets(changes: &Vec<ScheduleChange>) -> (r: (Vec<i64>, Vec<i64>))
    ensures
        r.0@ == dedup_first_seen(changes@.map_values(|c: ScheduleChange| c.group_id)),
        r.1@ == dedup_first_seen(changes@.map_values(|c: ScheduleChange| c.new_teacher_id)),
{
    let n = changes.len();
    let mut group_ids: Vec<i64> = Vec::new();
    let mut teacher_ids: Vec<i64> = Vec::new();
    let mut k: usize = 0;
    while k < n
        invariant
            n == changes.len(),
            k <= n,
            group_ids@ == dedup_first_seen(
                changes@.subrange(0, k as int).map_values(|c: ScheduleChange| c.group_id),
            ),
            teacher_ids@ == dedup_first_seen(
                changes@.subrange(0, k as int).map_values(|c: ScheduleChange| c.new_teacher_id),
            ),
        decreases n - k,
    {
        let ghost pre = changes@.subrange(0, k as int);
        let ghost e = changes@[k as int];
        let g = changes[k].group_id;
        let t = changes[k].new_teacher_id;
        let has_g = contains_id(&group_ids, g);
        if !has_g {
            group_ids.push(g);
        }
        let has_t = contains_id(&teacher_ids, t);
        if !has_t {
            teacher_ids.push(t);
        }
        proof {
            assert(changes@.subrange(0, k as int + 1) =~= pre.push(e));
            assert(pre.push(e).map_values(|c: ScheduleChange| c.group_id) =~= pre.map_values(
                |c: ScheduleChange| c.group_id,
            ).push(e.group_id));
            assert(pre.push(e).map_values(|c: ScheduleChange| c.new_teacher_id) =~= pre.map_values(
                |c: ScheduleChange| c.new_teacher_id,
            ).push(e.new_teacher_id));
            assert(pre.map_values(|c: ScheduleChange| c.group_id).push(e.group_id).drop_last()
                =~= pre.map_values(|c: ScheduleChange| c.group_id));
            assert(pre.map_values(|c: ScheduleChange| c.new_teacher_id).push(
                e.new_teacher_id,
            ).drop_last() =~= pre.map_values(|c: ScheduleChange| c.new_teacher_id));
        }
        k = k + 1;
    }
    proof {
        assert(changes@.subrange(0, n as int) =~= changes@);
    }
    (group_ids, teacher_ids)
}

/// Whether the id already occurs in the list.
fn contains_id(v: &Vec<i64>, x: i64) -> (r: bool)
    ensures
        r == v@.contains(x),
{
    let n = v.len();
    let mut k: usize = 0;
    while k < n
        invariant
            n == v.len(),
            k <= n,
            forall|i: int| 0 <= i < k ==> v@[i] != x,
        decreases n - k,
    {
        if v[k] == x {
            proof {
                assert(v@[k as int] == x);
            }
            return true;
        }
        k = k + 1;
    }
    false
}

} // verus!

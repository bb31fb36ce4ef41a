//! The recurring schedule store: weekly timetable slots grouped per group
//! and weekday.
//!
//! Listing a group's schedule orders its slots by weekday, then by ordinal
//! pair number, and folds the ordered run into one entry per weekday that
//! actually has slots. No uniqueness or overlap rule is enforced on slots.

use vstd::prelude::*;

use crate::calendar::TimeOfDay;
use crate::errors::AppError;
use crate::seq_util::lemma_filter_push;

verus! {

/// One stored slot: a weekly-repeating timetable entry.
#[derive(Debug)]
pub struct ScheduleRow {
    pub id: i64,
    pub pair_number: i8,
    pub group_id: i64,
    pub subject_id: i64,
    pub teacher_id: i64,
    pub weekday: i8,
    pub start_time: TimeOfDay,
    pub end_time: TimeOfDay,
    pub cabinet: String,
}

impl Clone for ScheduleRow {
    fn clone(&self) -> (r: Self)
        ensures
            r == *self,
    {
        ScheduleRow {
            id: self.id,
            pair_number: self.pair_number,
            group_id: self.group_id,
            subject_id: self.subject_id,
            teacher_id: self.teacher_id,
            weekday: self.weekday,
            start_time: self.start_time,
            end_time: self.end_time,
            cabinet: self.cabinet.clone(),
        }
    }
}

/// One slot as it appears inside a day's listing.
#[derive(Debug)]
pub struct Pair {
    pub id: i64,
    pub pair_number: i8,
    pub teacher_id: i64,
    pub subject_id: i64,
    pub start_time: TimeOfDay,
    pub end_time: TimeOfDay,
    pub cabinet: String,
}

impl Clone for Pair {
    fn clone(&self) -> (r: Self)
        ensures
            r == *self,
    {
        Pair {
            id: self.id,
            pair_number: self.pair_number,
            teacher_id: self.teacher_id,
            subject_id: self.subject_id,
            start_time: self.start_time,
            end_time: self.end_time,
            cabinet: self.cabinet.clone(),
        }
    }
}

/// One weekday of one group's schedule: the day's slots in listing order.
#[derive(Debug)]
pub struct Schedule {
    pub group_id: i64,
    pub weekday: i8,
    pub pairs: Vec<Pair>,
}

impl View for Schedule {
    type V = (i64, i8, Seq<Pair>);

    open spec fn view(&self) -> (i64, i8, Seq<Pair>) {
        (self.group_id, self.weekday, self.pairs@)
    }
}

/// One slot of a bulk insertion; group and weekday come from the request.
#[derive(Debug)]
pub struct AddPair {
    pub pair_number: i8,
    pub teacher_id: i64,
    pub subject_id: i64,
    pub start_time: TimeOfDay,
    pub end_time: TimeOfDay,
    pub cabinet: String,
}

/// A bulk insertion: slots for one group and weekday.
#[derive(Debug)]
pub struct AddScheduleRequest {
    pub group_id: i64,
    pub weekday: i8,
    pub pairs: Vec<AddPair>,
}

/// How a stored slot appears inside a listing.
pub open spec fn pair_of(r: ScheduleRow) -> Pair {
    Pair {
        id: r.id,
        pair_number: r.pair_number,
        teacher_id: r.teacher_id,
        subject_id: r.subject_id,
        start_time: r.start_time,
        end_time: r.end_time,
        cabinet: r.cabinet,
    }
}

/// The listing order: weekday ascending, then pair number ascending.
pub open spec fn key_le(a: ScheduleRow, b: ScheduleRow) -> bool {
    a.weekday < b.weekday || (a.weekday == b.weekday && a.pair_number <= b.pair_number)
}

/// The sequence is in listing order.
pub open spec fn sorted_rows(s: Seq<ScheduleRow>) -> bool {
    forall|i: int, j: int| 0 <= i < j < s.len() ==> key_le(#[trigger] s[i], #[trigger] s[j])
}

/// `r` inserted behind every element that sorts no later than it: the
/// stable insertion step.
pub open spec fn insert_sorted(s: Seq<ScheduleRow>, r: ScheduleRow) -> Seq<ScheduleRow>
    decreases s.len(),
{
    if s.len() == 0 {
        seq![r]
    } else if key_le(s.first(), r) {
        seq![s.first()] + insert_sorted(s.drop_first(), r)
    } else {
        seq![r] + s
    }
}

/// Stable insertion sort of the whole sequence.
pub open spec fn sort_rows(s: Seq<ScheduleRow>) -> Seq<ScheduleRow>
    decreases s.len(),
{
    if s.len() == 0 {
        Seq::empty()
    } else {
        insert_sorted(sort_rows(s.drop_last()), s.last())
    }
}

/// The slots of one group, in store order.
pub open spec fn rows_of_group(s: Seq<ScheduleRow>, group_id: i64) -> Seq<ScheduleRow> {
    s.filter(|r: ScheduleRow| r.group_id == group_id)
}

/// The first entry carrying this weekday, or -1.
pub open spec fn find_day(acc: Seq<(i64, i8, Seq<Pair>)>, w: i8) -> int
    decreases acc.len(),
{
    if acc.len() == 0 {
        -1
    } else if acc.first().1 == w {
        0
    } else {
        let k = find_day(acc.drop_first(), w);
        if k < 0 {
            -1
        } else {
            k + 1
        }
    }
}

/// Folding one more slot into the per-weekday grouping: appended to the
/// first entry of its weekday, or opening a new entry at the end.
pub open spec fn fold_step(acc: Seq<(i64, i8, Seq<Pair>)>, g: i64, r: ScheduleRow) -> Seq<
    (i64, i8, Seq<Pair>),
> {
    let k = find_day(acc, r.weekday);
    if k >= 0 {
        acc.update(k, (acc[k].0, acc[k].1, acc[k].2.push(pair_of(r))))
    } else {
        acc.push((g, r.weekday, seq![pair_of(r)]))
    }
}

/// The per-weekday grouping of a run of slots, in first-encountered order
/// of weekdays.
pub open spec fn group_days(s: Seq<ScheduleRow>, g: i64) -> Seq<(i64, i8, Seq<Pair>)>
    decreases s.len(),
{
    if s.len() == 0 {
        Seq::empty()
    } else {
        fold_step(group_days(s.drop_last(), g), g, s.last())
    }
}

/// What listing a group returns: its slots sorted, then grouped per
/// weekday.
pub open spec fn listing(s: Seq<ScheduleRow>, group_id: i64) -> Seq<(i64, i8, Seq<Pair>)> {
    group_days(sort_rows(rows_of_group(s, group_id)), group_id)
}

/// Some stored slot carries this id.
pub open spec fn has_row(s: Seq<ScheduleRow>, id: i64) -> bool {
    exists|i: int| 0 <= i < s.len() && s[i].id == id
}

/// Some stored slot belongs to this group and weekday.
pub open spec fn has_day(s: Seq<ScheduleRow>, group_id: i64, weekday: i8) -> bool {
    exists|i: int| 0 <= i < s.len() && s[i].group_id == group_id && s[i].weekday == weekday
}

/// The slot a bulk insertion stores for one payload entry, given the id
/// the store hands out.
pub open spec fn row_from_add(p: AddPair, group_id: i64, weekday: i8, id: i64) -> ScheduleRow {
    ScheduleRow {
        id: id,
        pair_number: p.pair_number,
        group_id: group_id,
        subject_id: p.subject_id,
        teacher_id: p.teacher_id,
        weekday: weekday,
        start_time: p.start_time,
        end_time: p.end_time,
        cabinet: p.cabinet,
    }
}

/// A stored slot after one per-id update: every field from the payload
/// pair and the payload's weekday, but its identity and group kept.
pub open spec fn pair_edit(r: ScheduleRow, p: Pair, weekday: i8) -> ScheduleRow {
    ScheduleRow {
        id: r.id,
        pair_number: p.pair_number,
        group_id: r.group_id,
        subject_id: p.subject_id,
        teacher_id: p.teacher_id,
        weekday: weekday,
        start_time: p.start_time,
        end_time: p.end_time,
        cabinet: p.cabinet,
    }
}

/// The store after the first `n` per-id updates of a bulk edit have run;
/// an update that finds no row changes nothing.
pub open spec fn apply_edits(s: Seq<ScheduleRow>, weekday: i8, ps: Seq<Pair>, n: int) -> Seq<
    ScheduleRow,
>
    decreases n,
{
    if n <= 0 {
        s
    } else {
        let prev = apply_edits(s, weekday, ps, n - 1);
        let p = ps[n - 1];
        if exists|i: int| 0 <= i < prev.len() && prev[i].id == p.id {
            let i = choose|i: int| 0 <= i < prev.len() && prev[i].id == p.id;
            prev.update(i, pair_edit(prev[i], p, weekday))
        } else {
            prev
        }
    }
}

/// Each of the first `n` updates found its row when its turn came.
pub open spec fn edits_succeed_upto(s: Seq<ScheduleRow>, weekday: i8, ps: Seq<Pair>, n: int) -> bool {
    forall|m: int| 0 <= m < n ==> has_row(apply_edits(s, weekday, ps, m), (#[trigger] ps[m]).id)
}

/// Row `j` of a bulk insertion landed as expected: the payload fields
/// under some id that no pre-existing slot carried.
pub open spec fn added_row_ok(
    s0: Seq<ScheduleRow>,
    s1: Seq<ScheduleRow>,
    p: AddPair,
    group_id: i64,
    weekday: i8,
    j: int,
) -> bool {
    let row = s1[s0.len() + j];
    row == row_from_add(p, group_id, weekday, row.id) && !has_row(s0, row.id)
}

/// Inserting at the position found by scanning past every element that
/// sorts no later than `r` is exactly the stable insertion step.
pub proof fn lemma_insert_sorted_split(s: Seq<ScheduleRow>, r: ScheduleRow, idx: int)
    requires
        0 <= idx <= s.len(),
        forall|i: int| 0 <= i < idx ==> key_le(#[trigger] s[i], r),
        idx < s.len() ==> !key_le(s[idx], r),
    ensures
        insert_sorted(s, r) =~= s.subrange(0, idx) + seq![r] + s.subrange(idx, s.len() as int),
    decreases s.len(),
{
    if s.len() == 0 {
    } else if idx == 0 {
        assert(!key_le(s.first(), r));
    } else {
        assert(key_le(s[0], r));
        let df = s.drop_first();
        assert forall|i: int| 0 <= i < idx - 1 implies key_le(#[trigger] df[i], r) by {
            assert(df[i] == s[i + 1]);
        }
        if idx - 1 < df.len() {
            assert(df[idx - 1] == s[idx]);
        }
        lemma_insert_sorted_split(df, r, idx - 1);
    }
}

/// Every element of the insertion result is the inserted one or comes from
/// the original sequence; the length grows by one.
pub proof fn lemma_insert_sorted_elems(s: Seq<ScheduleRow>, r: ScheduleRow)
    ensures
        insert_sorted(s, r).len() == s.len() + 1,
        forall|i: int|
            0 <= i < insert_sorted(s, r).len() ==> (s.contains(#[trigger] insert_sorted(s, r)[i])
                || insert_sorted(s, r)[i] == r),
    decreases s.len(),
{
    if s.len() == 0 {
    } else if key_le(s.first(), r) {
        let df = s.drop_first();
        lemma_insert_sorted_elems(df, r);
        let res = insert_sorted(s, r);
        assert forall|i: int|
            0 <= i < res.len() implies (s.contains(#[trigger] res[i]) || res[i] == r) by {
            if i == 0 {
                assert(res[0] == s[0]);
                assert(s.contains(s[0]));
            } else {
                assert(res[i] == insert_sorted(df, r)[i - 1]);
                if insert_sorted(df, r)[i - 1] == r {
                } else {
                    assert(df.contains(insert_sorted(df, r)[i - 1]));
                    let m = choose|m: int|
                        0 <= m < df.len() && df[m] == insert_sorted(df, r)[i - 1];
                    assert(s[m + 1] == df[m]);
                    assert(s.contains(s[m + 1]));
                }
            }
        }
    } else {
        let res = insert_sorted(s, r);
        assert forall|i: int|
            0 <= i < res.len() implies (s.contains(#[trigger] res[i]) || res[i] == r) by {
            if i > 0 {
                assert(res[i] == s[i - 1]);
                assert(s.contains(s[i - 1]));
            }
        }
    }
}

/// Inserting into a sequence in listing order keeps it in listing order.
pub proof fn lemma_insert_sorted_sorted(s: Seq<ScheduleRow>, r: ScheduleRow)
    requires
        sorted_rows(s),
    ensures
        sorted_rows(insert_sorted(s, r)),
    decreases s.len(),
{
    if s.len() == 0 {
    } else if key_le(s.first(), r) {
        let df = s.drop_first();
        assert forall|i: int, j: int|
            0 <= i < j < df.len() implies key_le(#[trigger] df[i], #[trigger] df[j]) by {
            assert(df[i] == s[i + 1]);
            assert(df[j] == s[j + 1]);
        }
        lemma_insert_sorted_sorted(df, r);
        lemma_insert_sorted_elems(df, r);
        let rec = insert_sorted(df, r);
        let res = insert_sorted(s, r);
        assert forall|i: int, j: int|
            0 <= i < j < res.len() implies key_le(#[trigger] res[i], #[trigger] res[j]) by {
            if i == 0 {
                assert(res[0] == s[0]);
                assert(res[j] == rec[j - 1]);
                if rec[j - 1] == r {
                } else {
                    assert(df.contains(rec[j - 1]));
                    let m = choose|m: int| 0 <= m < df.len() && df[m] == rec[j - 1];
                    assert(df[m] == s[m + 1]);
                    assert(key_le(s[0], s[m + 1]));
                }
            } else {
                assert(res[i] == rec[i - 1]);
                assert(res[j] == rec[j - 1]);
            }
        }
    } else {
        let res = insert_sorted(s, r);
        assert forall|i: int, j: int|
            0 <= i < j < res.len() implies key_le(#[trigger] res[i], #[trigger] res[j]) by {
            if i == 0 {
                assert(res[0] == r);
                assert(res[j] == s[j - 1]);
                assert(!key_le(s[0], r));
                if j > 1 {
                    assert(key_le(s[0], s[j - 1]));
                }
            } else {
                assert(res[i] == s[i - 1]);
                assert(res[j] == s[j - 1]);
            }
        }
    }
}

/// The sort's output is in listing order.
pub proof fn lemma_sort_rows_sorted(s: Seq<ScheduleRow>)
    ensures
        sorted_rows(sort_rows(s)),
    decreases s.len(),
{
    if s.len() > 0 {
        lemma_sort_rows_sorted(s.drop_last());
        lemma_insert_sorted_sorted(sort_rows(s.drop_last()), s.last());
    }
}

/// `find_day` yields the first entry of the weekday: a miss means no entry
/// carries it, a hit is in range, carries it, and nothing earlier does.
pub proof fn lemma_find_day(acc: Seq<(i64, i8, Seq<Pair>)>, w: i8)
    ensures
        find_day(acc, w) == -1 ==> forall|i: int| 0 <= i < acc.len() ==> (#[trigger] acc[i]).1 != w,
        find_day(acc, w) != -1 ==> 0 <= find_day(acc, w) < acc.len() && acc[find_day(acc, w)].1 == w
            && forall|i: int| 0 <= i < find_day(acc, w) ==> (#[trigger] acc[i]).1 != w,
    decreases acc.len(),
{
    if acc.len() == 0 {
    } else if acc.first().1 == w {
    } else {
        let df = acc.drop_first();
        lemma_find_day(df, w);
        let k = find_day(df, w);
        if k < 0 {
            assert forall|i: int| 0 <= i < acc.len() implies (#[trigger] acc[i]).1 != w by {
                if i > 0 {
                    assert(df[i - 1] == acc[i]);
                }
            }
        } else {
            assert(acc[k + 1] == df[k]);
            assert forall|i: int| 0 <= i < k + 1 implies (#[trigger] acc[i]).1 != w by {
                if i > 0 {
                    assert(df[i - 1] == acc[i]);
                }
            }
        }
    }
}

/// Turns a stored slot into its listing form.
fn pair_from_row(r: &ScheduleRow) -> (p: Pair)
    ensures
        p == pair_of(*r),
{
    Pair {
        id: r.id,
        pair_number: r.pair_number,
        teacher_id: r.teacher_id,
        subject_id: r.subject_id,
        start_time: r.start_time,
        end_time: r.end_time,
        cabinet: r.cabinet.clone(),
    }
}

/// The listing order, decided on two stored slots.
fn key_le_exec(a: &ScheduleRow, b: &ScheduleRow) -> (r: bool)
    ensures
        r == key_le(*a, *b),
{
    a.weekday < b.weekday || (a.weekday == b.weekday && a.pair_number <= b.pair_number)
}

/// The recurring schedule store. Slot ids are handed out by the store and
/// never reused.
#[derive(Debug)]
pub struct ScheduleStore {
    rows: Vec<ScheduleRow>,
    next_id: i64,
}

impl View for ScheduleStore {
    type V = Seq<ScheduleRow>;

    closed spec fn view(&self) -> Seq<ScheduleRow> {
        self.rows@
    }
}

impl ScheduleStore {
    /// Ids are pairwise distinct, at least 1, and below the next free id.
    pub closed spec fn wf(&self) -> bool {
        &&& forall|i: int, j: int|
            0 <= i < j < self.rows@.len() ==> (#[trigger] self.rows@[i]).id != (
            #[trigger] self.rows@[j]).id
        &&& 1 <= self.next_id
        &&& forall|i: int|
            0 <= i < self.rows@.len() ==> 1 <= (#[trigger] self.rows@[i]).id < self.next_id
    }

    /// This many more slots can still get fresh ids.
    pub closed spec fn can_add(&self, n: int) -> bool {
        self.next_id + n <= i64::MAX
    }

    /// An empty store.
    pub fn init() -> (r: Self)
        ensures
            r@ =~= Seq::<ScheduleRow>::empty(),
            r.wf(),
            forall|n: int| n <= i64::MAX - 1 ==> r.can_add(n),
    {
        ScheduleStore { rows: Vec::new(), next_id: 1 }
    }

    /// The group's slots in listing order, folded into one entry per
    /// weekday that has slots, weekdays in first-encountered order.
    pub fn get_schedule(&self, group_id: i64) -> (r: Vec<Schedule>)
        ensures
            r@.len() == listing(self@, group_id).len(),
            forall|i: int| 0 <= i < r@.len() ==> (#[trigger] r@[i])@ == listing(self@, group_id)[i],
    {
        let n = self.rows.len();
        let mut sorted: Vec<ScheduleRow> = Vec::new();
        let mut k: usize = 0;
        while k < n
            invariant
                n == self.rows.len(),
                k <= n,
                sorted@ == sort_rows(rows_of_group(self@.subrange(0, k as int), group_id)),
                sorted_rows(sorted@),
            decreases n - k,
        {
            let ghost pre = self@.subrange(0, k as int);
            let ghost e = self@[k as int];
            if self.rows[k].group_id == group_id {
                let row = self.rows[k].clone();
                let m = sorted.len();
                let mut idx: usize = 0;
                while idx < m
                    invariant_except_break
                        m == sorted.len(),
                        idx <= m,
                        forall|i: int| 0 <= i < idx ==> key_le(#[trigger] sorted@[i], row),
                    ensures
                        idx <= m,
                        m == sorted.len(),
                        forall|i: int| 0 <= i < idx ==> key_le(#[trigger] sorted@[i], row),
                        idx < m ==> !key_le(sorted@[idx as int], row),
                    decreases m - idx,
                {
                    if !key_le_exec(&sorted[idx], &row) {
                        break ;
                    }
                    idx = idx + 1;
                }
                let ghost before = sorted@;
                proof {
                    lemma_insert_sorted_split(before, row, idx as int);
                    lemma_insert_sorted_sorted(before, row);
                }
                sorted.insert(idx, row);
                proof {
                    assert(sorted@ =~= before.subrange(0, idx as int) + seq![e] + before.subrange(
                        idx as int,
                        before.len() as int,
                    ));
                    assert(sorted@ =~= insert_sorted(before, e));
                    lemma_filter_push(pre, |x: ScheduleRow| x.group_id == group_id, e);
                    assert(self@.subrange(0, k as int + 1) =~= pre.push(e));
                    assert(rows_of_group(pre.push(e), group_id) =~= rows_of_group(
                        pre,
                        group_id,
                    ).push(e));
                    assert(rows_of_group(pre.push(e), group_id).drop_last() =~= rows_of_group(
                        pre,
                        group_id,
                    ));
                }
            } else {
                proof {
                    lemma_filter_push(pre, |x: ScheduleRow| x.group_id == group_id, e);
                    assert(self@.subrange(0, k as int + 1) =~= pre.push(e));
                }
            }
            k = k + 1;
        }
        proof {
            assert(self@.subrange(0, n as int) =~= self@);
        }
        // fold the ordered run into per-weekday entries
        let sn = sorted.len();
        let mut result: Vec<Schedule> = Vec::new();
        let mut k2: usize = 0;
        while k2 < sn
            invariant
                sn == sorted.len(),
                k2 <= sn,
                sorted@ == sort_rows(rows_of_group(self@, group_id)),
                result@.len() == group_days(sorted@.subrange(0, k2 as int), group_id).len(),
                forall|i: int|
                    0 <= i < result@.len() ==> (#[trigger] result@[i])@ == group_days(
                        sorted@.subrange(0, k2 as int),
                        group_id,
                    )[i],
            decreases sn - k2,
        {
            let ghost acc = group_days(sorted@.subrange(0, k2 as int), group_id);
            let ghost e = sorted@[k2 as int];
            let row = &sorted[k2];
            let p = pair_from_row(row);
            let m = result.len();
            let mut pos: usize = 0;
            let mut found = false;
            while pos < m
                invariant_except_break
                    m == result.len(),
                    pos <= m,
                    !found,
                    forall|i: int| 0 <= i < pos ==> (#[trigger] result@[i]).weekday != row.weekday,
                ensures
                    pos <= m,
                    m == result.len(),
                    forall|i: int| 0 <= i < pos ==> (#[trigger] result@[i]).weekday != row.weekday,
                    found ==> pos < m && result@[pos as int].weekday == row.weekday,
                    !found ==> pos == m,
                decreases m - pos,
            {
                if result[pos].weekday == row.weekday {
                    found = true;
                    break ;
                }
                pos = pos + 1;
            }
            proof {
                lemma_find_day(acc, e.weekday);
                assert forall|i: int| 0 <= i < result@.len() implies (#[trigger] acc[i]).1
                    == result@[i].weekday by {
                    assert(result@[i]@ == acc[i]);
                }
                assert(sorted@.subrange(0, k2 as int + 1) =~= sorted@.subrange(
                    0,
                    k2 as int,
                ).push(e));
                assert(sorted@.subrange(0, k2 as int + 1).drop_last() =~= sorted@.subrange(
                    0,
                    k2 as int,
                ));
            }
            if found {
                proof {
                    // the hit is the first entry of this weekday, so it is
                    // exactly what find_day names
                    assert(acc[pos as int].1 == e.weekday);
                    assert(find_day(acc, e.weekday) == pos as int) by {
                        lemma_find_day(acc, e.weekday);
                        let fd = find_day(acc, e.weekday);
                        if fd == -1 {
                            assert(acc[pos as int].1 != e.weekday);
                        } else if fd < pos as int {
                            assert(result@[fd].weekday != row.weekday);
                            assert(acc[fd].1 == e.weekday);
                        } else if fd > pos as int {
                            assert(acc[pos as int].1 != e.weekday);
                        }
                    }
                }
                let mut day = result.remove(pos);
                day.pairs.push(p);
                let ghost day_after = day;
                result.insert(pos, day);
                proof {
                    let next = group_days(sorted@.subrange(0, k2 as int + 1), group_id);
                    assert(next == fold_step(acc, group_id, e));
                    assert(next =~= acc.update(
                        pos as int,
                        (acc[pos as int].0, acc[pos as int].1, acc[pos as int].2.push(pair_of(e))),
                    ));
                    assert forall|i: int|
                        0 <= i < result@.len() implies (#[trigger] result@[i])@ == next[i] by {
                        if i < pos as int {
                            assert(result@[i]@ == acc[i]);
                        } else if i == pos as int {
                            assert(result@[i] == day_after);
                        } else {
                            assert(result@[i]@ == acc[i]);
                        }
                    }
                }
            } else {
                let mut ps: Vec<Pair> = Vec::new();
                ps.push(p);
                let day = Schedule { group_id: group_id, weekday: row.weekday, pairs: ps };
                result.push(day);
                proof {
                    let next = group_days(sorted@.subrange(0, k2 as int + 1), group_id);
                    assert(next == fold_step(acc, group_id, e));
                    assert(find_day(acc, e.weekday) == -1) by {
                        lemma_find_day(acc, e.weekday);
                        let fd = find_day(acc, e.weekday);
                        if fd != -1 {
                            assert(result@.subrange(0, m as int) =~= result@.subrange(
                                0,
                                m as int,
                            ));
                            assert(acc[fd].1 == e.weekday);
                            assert(result@[fd].weekday != row.weekday);
                        }
                    }
                    assert(next =~= acc.push((group_id, e.weekday, seq![pair_of(e)])));
                    assert forall|i: int|
                        0 <= i < result@.len() implies (#[trigger] result@[i])@ == next[i] by {
                        if i < acc.len() {
                            assert(result@[i]@ == acc[i]);
                        } else {
                            assert(result@[i]@ == (group_id, e.weekday, seq![pair_of(e)]));
                        }
                    }
                }
            }
            k2 = k2 + 1;
        }
        proof {
            assert(sorted@.subrange(0, sn as int) =~= sorted@);
        }
        result
    }

    /// Deletes every slot of one group and weekday in one statement:
    /// `NotFound`, with nothing changed, when no slot matches.
    pub fn delete_day(&mut self, group_id: i64, weekday: i8) -> (r: Result<i64, AppError>)
        requires
            old(self).wf(),
        ensures
            final(self).wf(),
            r is Ok <==> has_day(old(self)@, group_id, weekday),
            r is Ok ==> r == Ok::<i64, AppError>(200),
            r is Err ==> r == Err::<i64, AppError>(AppError::NotFound),
            final(self)@ == old(self)@.filter(
                |x: ScheduleRow| !(x.group_id == group_id && x.weekday == weekday),
            ),
    {
        let n = self.rows.len();
        let mut kept: Vec<ScheduleRow> = Vec::new();
        let mut found = false;
        let mut k: usize = 0;
        while k < n
            invariant
                self@ == old(self)@,
                old(self).wf(),
                n == self.rows.len(),
                k <= n,
                kept@ == old(self)@.subrange(0, k as int).filter(
                    |x: ScheduleRow| !(x.group_id == group_id && x.weekday == weekday),
                ),
                found == has_day(old(self)@.subrange(0, k as int), group_id, weekday),
            decreases n - k,
        {
            let ghost pre = old(self)@.subrange(0, k as int);
            let ghost e = old(self)@[k as int];
            if self.rows[k].group_id == group_id && self.rows[k].weekday == weekday {
                found = true;
                proof {
                    assert(pre.push(e)[k as int] == e);
                }
            } else {
                kept.push(self.rows[k].clone());
                proof {
                    assert forall|i: int|
                        0 <= i < pre.push(e).len() && pre.push(e)[i].group_id == group_id
                            && pre.push(e)[i].weekday == weekday implies has_day(
                        pre,
                        group_id,
                        weekday,
                    ) by {
                        assert(pre[i] == pre.push(e)[i]);
                    }
                }
            }
            proof {
                assert(old(self)@.subrange(0, k as int + 1) =~= pre.push(e));
                lemma_filter_push(
                    pre,
                    |x: ScheduleRow| !(x.group_id == group_id && x.weekday == weekday),
                    e,
                );
            }
            k = k + 1;
        }
        proof {
            assert(old(self)@.subrange(0, n as int) =~= old(self)@);
        }
        if !found {
            proof {
                crate::seq_util::lemma_filter_all(
                    old(self)@,
                    |x: ScheduleRow| !(x.group_id == group_id && x.weekday == weekday),
                );
            }
            self.rows = kept;
            return Err(AppError::NotFound);
        }
        self.rows = kept;
        proof {
            let p = |x: ScheduleRow| !(x.group_id == group_id && x.weekday == weekday);
            let key = |x: ScheduleRow| x.id;
            crate::seq_util::lemma_filter_unique_keys(old(self)@, p, key);
            crate::seq_util::lemma_filter_membership(old(self)@, p);
            assert forall|i: int, j: int|
                0 <= i < j < self@.len() implies (#[trigger] self@[i]).id != (
            #[trigger] self@[j]).id by {
                assert(key(self@[i]) != key(self@[j]));
            }
            assert forall|i: int|
                0 <= i < self@.len() implies 1 <= (#[trigger] self@[i]).id < self.next_id by {
                assert(old(self)@.contains(self@[i]));
                let m = choose|m: int| 0 <= m < old(self)@.len() && old(self)@[m] == self@[i];
                assert(1 <= old(self)@[m].id < old(self).next_id);
            }
        }
        Ok(200)
    }

    /// Deletes one slot by id in one statement: `NotFound`, with nothing
    /// changed, when no slot carries the id.
    pub fn delete_pair(&mut self, id: i64) -> (r: Result<i64, AppError>)
        requires
            old(self).wf(),
        ensures
            final(self).wf(),
            r is Ok <==> has_row(old(self)@, id),
            r is Ok ==> r == Ok::<i64, AppError>(200),
            r is Err ==> r == Err::<i64, AppError>(AppError::NotFound),
            final(self)@ == old(self)@.filter(|x: ScheduleRow| x.id != id),
    {
        let n = self.rows.len();
        let mut kept: Vec<ScheduleRow> = Vec::new();
        let mut found = false;
        let mut k: usize = 0;
        while k < n
            invariant
                self@ == old(self)@,
                old(self).wf(),
                n == self.rows.len(),
                k <= n,
                kept@ == old(self)@.subrange(0, k as int).filter(|x: ScheduleRow| x.id != id),
                found == has_row(old(self)@.subrange(0, k as int), id),
            decreases n - k,
        {
            let ghost pre = old(self)@.subrange(0, k as int);
            let ghost e = old(self)@[k as int];
            if self.rows[k].id == id {
                found = true;
                proof {
                    assert(pre.push(e)[k as int] == e);
                }
            } else {
                kept.push(self.rows[k].clone());
                proof {
                    assert forall|i: int|
                        0 <= i < pre.push(e).len() && pre.push(e)[i].id == id implies has_row(
                        pre,
                        id,
                    ) by {
                        assert(pre[i] == pre.push(e)[i]);
                    }
                }
            }
            proof {
                assert(old(self)@.subrange(0, k as int + 1) =~= pre.push(e));
                lemma_filter_push(pre, |x: ScheduleRow| x.id != id, e);
            }
            k = k + 1;
        }
        proof {
            assert(old(self)@.subrange(0, n as int) =~= old(self)@);
        }
        if !found {
            proof {
                crate::seq_util::lemma_filter_all(old(self)@, |x: ScheduleRow| x.id != id);
            }
            self.rows = kept;
            return Err(AppError::NotFound);
        }
        self.rows = kept;
        proof {
            let p = |x: ScheduleRow| x.id != id;
            let key = |x: ScheduleRow| x.id;
            crate::seq_util::lemma_filter_unique_keys(old(self)@, p, key);
            crate::seq_util::lemma_filter_membership(old(self)@, p);
            assert forall|i: int, j: int|
                0 <= i < j < self@.len() implies (#[trigger] self@[i]).id != (
            #[trigger] self@[j]).id by {
                assert(key(self@[i]) != key(self@[j]));
            }
            assert forall|i: int|
                0 <= i < self@.len() implies 1 <= (#[trigger] self@[i]).id < self.next_id by {
                assert(old(self)@.contains(self@[i]));
                let m = choose|m: int| 0 <= m < old(self)@.len() && old(self)@[m] == self@[i];
                assert(1 <= old(self)@[m].id < old(self).next_id);
            }
        }
        Ok(200)
    }

    /// Inserts every payload slot, tagged with the request's group and
    /// weekday, under fresh ids in payload order, then returns the full
    /// listing of that group reflecting the new state. No duplicate or
    /// overlap check. Fails with `Internal`, inserting nothing, only when
    /// the id space cannot seat the batch.
    #[verifier::rlimit(100)]
    pub fn add_pairs(&mut self, schedule: &AddScheduleRequest) -> (r: Result<Vec<Schedule>, AppError>)
        requires
            old(self).wf(),
        ensures
            final(self).wf(),
            r is Ok <==> old(self).can_add(schedule.pairs@.len() as int),
            r is Err ==> r == Err::<Vec<Schedule>, AppError>(AppError::Internal) && final(self)@
                == old(self)@,
            r is Ok ==> {
                &&& final(self)@.len() == old(self)@.len() + schedule.pairs@.len()
                &&& (forall|i: int| 0 <= i < old(self)@.len() ==> #[trigger] final(self)@[i] == old(
                    self,
                )@[i])
                &&& (forall|j: int|
                    0 <= j < schedule.pairs@.len() ==> #[trigger] added_row_ok(
                        old(self)@,
                        final(self)@,
                        schedule.pairs@[j],
                        schedule.group_id,
                        schedule.weekday,
                        j,
                    ))
                &&& r->Ok_0@.len() == listing(final(self)@, schedule.group_id).len()
                &&& (forall|i: int|
                    0 <= i < r->Ok_0@.len() ==> (#[trigger] r->Ok_0@[i])@ == listing(
                        final(self)@,
                        schedule.group_id,
                    )[i])
            },
    {
        let n = schedule.pairs.len();
        let cap = (i64::MAX - self.next_id) as u64;
        if n as u64 > cap {
            return Err(AppError::Internal);
        }
        let ghost mut added: Seq<ScheduleRow> = Seq::empty();
        let mut j: usize = 0;
        while j < n
            invariant
                old(self).wf(),
                self.wf(),
                n == schedule.pairs.len(),
                j <= n,
                self.can_add((n - j) as int),
                added.len() == j,
                self@ == old(self)@ + added,
                forall|jj: int|
                    0 <= jj < added.len() ==> (#[trigger] added[jj]) == row_from_add(
                        schedule.pairs@[jj],
                        schedule.group_id,
                        schedule.weekday,
                        added[jj].id,
                    ) && !has_row(old(self)@, added[jj].id),
            decreases n - j,
        {
            let p = &schedule.pairs[j];
            let row = ScheduleRow {
                id: self.next_id,
                pair_number: p.pair_number,
                group_id: schedule.group_id,
                subject_id: p.subject_id,
                teacher_id: p.teacher_id,
                weekday: schedule.weekday,
                start_time: p.start_time,
                end_time: p.end_time,
                cabinet: p.cabinet.clone(),
            };
            proof {
                assert forall|i: int|
                    0 <= i < old(self)@.len() && old(self)@[i].id == self.next_id
                    implies false by {
                    assert(self@[i] == (old(self)@ + added)[i]);
                    assert(self@[i] == old(self)@[i]);
                }
            }
            self.rows.push(row);
            self.next_id = self.next_id + 1;
            proof {
                added = added.push(row);
                assert(self@ =~= old(self)@ + added);
            }
            j = j + 1;
        }
        proof {
            assert forall|jj: int|
                0 <= jj < schedule.pairs@.len() implies #[trigger] added_row_ok(
                old(self)@,
                self@,
                schedule.pairs@[jj],
                schedule.group_id,
                schedule.weekday,
                jj,
            ) by {
                assert(self@[old(self)@.len() + jj] == added[jj]);
            }
            assert forall|i: int|
                0 <= i < old(self)@.len() implies #[trigger] self@[i] == old(self)@[i] by {
                assert(self@[i] == (old(self)@ + added)[i]);
            }
        }
        Ok(self.get_schedule(schedule.group_id))
    }

    /// One per-id update statement of a bulk edit: rewrites the slot whose
    /// id matches the pair, reporting whether any slot was hit.
    fn edit_one(&mut self, p: &Pair, weekday: i8) -> (hit: bool)
        requires
            old(self).wf(),
        ensures
            final(self).wf(),
            hit == has_row(old(self)@, p.id),
            final(self)@ == (if has_row(old(self)@, p.id) {
                let i = choose|i: int| 0 <= i < old(self)@.len() && old(self)@[i].id == p.id;
                old(self)@.update(i, pair_edit(old(self)@[i], *p, weekday))
            } else {
                old(self)@
            }),
    {
        let rn = self.rows.len();
        let mut k: usize = 0;
        while k < rn
            invariant
                self@ == old(self)@,
                self.next_id == old(self).next_id,
                old(self).wf(),
                rn == self.rows.len(),
                k <= rn,
                forall|i: int| 0 <= i < k ==> self@[i].id != p.id,
            decreases rn - k,
        {
            if self.rows[k].id == p.id {
                let cur = &self.rows[k];
                let updated = ScheduleRow {
                    id: cur.id,
                    pair_number: p.pair_number,
                    group_id: cur.group_id,
                    subject_id: p.subject_id,
                    teacher_id: p.teacher_id,
                    weekday: weekday,
                    start_time: p.start_time,
                    end_time: p.end_time,
                    cabinet: p.cabinet.clone(),
                };
                proof {
                    let ki = k as int;
                    let i = choose|i: int| 0 <= i < self@.len() && self@[i].id == p.id;
                    assert(self@[ki].id == p.id);
                    if i < ki {
                        assert(self@[i].id != self@[ki].id);
                    } else if ki < i {
                        assert(self@[ki].id != self@[i].id);
                    }
                    assert(i == ki);
                    assert(updated == pair_edit(self@[ki], *p, weekday));
                }
                self.rows.set(k, updated);
                return true;
            }
            k = k + 1;
        }
        false
    }

    /// The bulk edit of one weekday of one group: updates the stored slot
    /// matching each payload pair's id in payload order. The first pair
    /// whose id matches no slot aborts the call with `NotFound`; updates
    /// already applied to earlier pairs in the same call are not rolled
    /// back. On success returns the full listing of the request's group in
    /// the new state.
    #[verifier::rlimit(100)]
    pub fn edit_pairs(&mut self, new_schedule: &Schedule) -> (r: Result<Vec<Schedule>, AppError>)
        requires
            old(self).wf(),
        ensures
            final(self).wf(),
            r is Ok <==> edits_succeed_upto(
                old(self)@,
                new_schedule.weekday,
                new_schedule.pairs@,
                new_schedule.pairs@.len() as int,
            ),
            r is Ok ==> final(self)@ == apply_edits(
                old(self)@,
                new_schedule.weekday,
                new_schedule.pairs@,
                new_schedule.pairs@.len() as int,
            ) && r->Ok_0@.len() == listing(final(self)@, new_schedule.group_id).len() && (forall|
                i: int,
            |
                0 <= i < r->Ok_0@.len() ==> (#[trigger] r->Ok_0@[i])@ == listing(
                    final(self)@,
                    new_schedule.group_id,
                )[i]),
            r is Err ==> r == Err::<Vec<Schedule>, AppError>(AppError::NotFound) && exists|j: int|
                0 <= j < new_schedule.pairs@.len() && #[trigger] edits_succeed_upto(
                    old(self)@,
                    new_schedule.weekday,
                    new_schedule.pairs@,
                    j,
                ) && !has_row(
                    apply_edits(old(self)@, new_schedule.weekday, new_schedule.pairs@, j),
                    new_schedule.pairs@[j].id,
                ) && final(self)@ == apply_edits(
                    old(self)@,
                    new_schedule.weekday,
                    new_schedule.pairs@,
                    j,
                ),
    {
        let n = new_schedule.pairs.len();
        let mut j: usize = 0;
        while j < n
            invariant
                old(self).wf(),
                self.wf(),
                n == new_schedule.pairs.len(),
                j <= n,
                self@ == apply_edits(
                    old(self)@,
                    new_schedule.weekday,
                    new_schedule.pairs@,
                    j as int,
                ),
                edits_succeed_upto(
                    old(self)@,
                    new_schedule.weekday,
                    new_schedule.pairs@,
                    j as int,
                ),
            decreases n - j,
        {
            let ghost w = new_schedule.weekday;
            let ghost ps = new_schedule.pairs@;
            let hit = self.edit_one(&new_schedule.pairs[j], new_schedule.weekday);
            if !hit {
                proof {
                    if edits_succeed_upto(old(self)@, w, ps, ps.len() as int) {
                        assert(has_row(apply_edits(old(self)@, w, ps, j as int), ps[j as int].id));
                    }
                }
                return Err(AppError::NotFound);
            }
            proof {
                assert(apply_edits(old(self)@, w, ps, j as int + 1) == self@);
                assert forall|mm: int| 0 <= mm < j as int + 1 implies has_row(
                    apply_edits(old(self)@, w, ps, mm),
                    (#[trigger] ps[mm]).id,
                ) by {
                    if mm < j as int {
                        assert(edits_succeed_upto(old(self)@, w, ps, j as int));
                    }
                }
            }
            j = j + 1;
        }
        Ok(self.get_schedule(new_schedule.group_id))
    }
}

/// Grouping an ordered run of one group's slots yields weekdays in
/// strictly ascending first-encountered order, every entry non-empty and
/// tagged with the group, pair numbers ascending within each day, and the
/// last entry tracking the last slot of the run.
pub proof fn lemma_group_days_ordered(s: Seq<ScheduleRow>, g: i64)
    requires
        sorted_rows(s),
    ensures
        ({
            let days = group_days(s, g);
            &&& (forall|a: int, b: int|
                0 <= a < b < days.len() ==> (#[trigger] days[a]).1 < (#[trigger] days[b]).1)
            &&& (forall|d: int| 0 <= d < days.len() ==> (#[trigger] days[d]).2.len() > 0)
            &&& (forall|d: int| 0 <= d < days.len() ==> (#[trigger] days[d]).0 == g)
            &&& (forall|d: int, a: int, b: int|
                #![trigger days[d].2[a], days[d].2[b]]
                0 <= d < days.len() && 0 <= a < b < days[d].2.len()
                    ==> days[d].2[a].pair_number <= days[d].2[b].pair_number)
            &&& s.len() > 0 ==> days.len() > 0 && days.last().1 == s.last().weekday
                && days.last().2.last() == pair_of(s.last())
        }),
    decreases s.len(),
{
    if s.len() == 0 {
    } else {
        let dl = s.drop_last();
        let r = s.last();
        assert forall|i: int, j: int|
            0 <= i < j < dl.len() implies key_le(#[trigger] dl[i], #[trigger] dl[j]) by {
            assert(dl[i] == s[i]);
            assert(dl[j] == s[j]);
        }
        lemma_group_days_ordered(dl, g);
        let acc = group_days(dl, g);
        let days = group_days(s, g);
        assert(days == fold_step(acc, g, r));
        lemma_find_day(acc, r.weekday);
        let fd = find_day(acc, r.weekday);
        if dl.len() == 0 {
            assert(acc =~= Seq::<(i64, i8, Seq<Pair>)>::empty());
            assert(fd == -1);
            assert(days =~= Seq::<(i64, i8, Seq<Pair>)>::empty().push(
                (g, r.weekday, seq![pair_of(r)]),
            ));
        } else {
            assert(dl.last() == s[s.len() - 2]);
            assert(key_le(dl.last(), r));
            assert(acc.last() == acc[acc.len() - 1]);
            if r.weekday == dl.last().weekday {
                // the run continues the last day
                assert(acc.last().1 == r.weekday);
                assert(fd == acc.len() - 1) by {
                    if fd == -1 {
                        assert(acc[acc.len() - 1].1 != r.weekday);
                    } else if fd < acc.len() - 1 {
                        assert(acc[fd].1 < acc[acc.len() - 1].1);
                        assert(acc[fd].1 == r.weekday);
                    }
                }
                let last0 = acc[acc.len() - 1];
                let extended = (last0.0, last0.1, last0.2.push(pair_of(r)));
                assert(days == acc.update(acc.len() - 1, extended));
                assert(dl.last().pair_number <= r.pair_number);
                assert(last0.2.last() == pair_of(dl.last()));
                assert forall|d: int, a: int, b: int|
                    #![trigger days[d].2[a], days[d].2[b]]
                    0 <= d < days.len() && 0 <= a < b < days[d].2.len()
                    implies days[d].2[a].pair_number <= days[d].2[b].pair_number by {
                    if d == days.len() - 1 {
                        assert(days[d].2 == last0.2.push(pair_of(r)));
                        if b == days[d].2.len() - 1 {
                            assert(days[d].2[b] == pair_of(r));
                            assert(days[d].2[a] == last0.2[a]);
                            if a < last0.2.len() - 1 {
                                assert(last0.2[a].pair_number <= last0.2[last0.2.len()
                                    - 1].pair_number);
                            }
                            assert(last0.2[last0.2.len() - 1] == pair_of(dl.last()));
                        } else {
                            assert(days[d].2[a] == last0.2[a]);
                            assert(days[d].2[b] == last0.2[b]);
                        }
                    } else {
                        assert(days[d] == acc[d]);
                    }
                }
            } else {
                // a strictly later weekday opens a new day
                assert(dl.last().weekday < r.weekday);
                assert(acc.last().1 == dl.last().weekday);
                assert(fd == -1) by {
                    if fd != -1 {
                        assert(acc[fd].1 == r.weekday);
                        if fd < acc.len() - 1 {
                            assert(acc[fd].1 < acc[acc.len() - 1].1);
                        }
                    }
                }
                assert(days == acc.push((g, r.weekday, seq![pair_of(r)])));
                assert forall|a: int, b: int|
                    0 <= a < b < days.len() implies (#[trigger] days[a]).1 < (
                #[trigger] days[b]).1 by {
                    if b == days.len() - 1 {
                        assert(days[a] == acc[a]);
                        if a < acc.len() - 1 {
                            assert(acc[a].1 < acc[acc.len() - 1].1);
                        }
                        assert(acc[acc.len() - 1].1 < r.weekday);
                    } else {
                        assert(days[a] == acc[a]);
                        assert(days[b] == acc[b]);
                    }
                }
                assert forall|d: int, a: int, b: int|
                    #![trigger days[d].2[a], days[d].2[b]]
                    0 <= d < days.len() && 0 <= a < b < days[d].2.len()
                    implies days[d].2[a].pair_number <= days[d].2[b].pair_number by {
                    if d < days.len() - 1 {
                        assert(days[d] == acc[d]);
                    }
                }
            }
        }
    }
}

/// What `get_schedule` returns is well shaped: weekdays appear in strictly
/// ascending first-encountered order, no weekday appears empty, every
/// entry carries the requested group, and within each weekday the pairs
/// are ordered by ascending pair number — for any store contents, that is,
/// for any insertion order of the underlying slots.
pub proof fn lemma_listing_ordered(s: Seq<ScheduleRow>, group_id: i64)
    ensures
        ({
            let days = listing(s, group_id);
            &&& (forall|a: int, b: int|
                0 <= a < b < days.len() ==> (#[trigger] days[a]).1 < (#[trigger] days[b]).1)
            &&& (forall|d: int| 0 <= d < days.len() ==> (#[trigger] days[d]).2.len() > 0)
            &&& (forall|d: int| 0 <= d < days.len() ==> (#[trigger] days[d]).0 == group_id)
            &&& (forall|d: int, a: int, b: int|
                #![trigger days[d].2[a], days[d].2[b]]
                0 <= d < days.len() && 0 <= a < b < days[d].2.len()
                    ==> days[d].2[a].pair_number <= days[d].2[b].pair_number)
        }),
{
    lemma_sort_rows_sorted(rows_of_group(s, group_id));
    lemma_group_days_ordered(sort_rows(rows_of_group(s, group_id)), group_id);
}

} // verus!

//! The subject store: reference data tied to one group, keyed by
//! store-assigned id.

use vstd::prelude::*;

use crate::errors::AppError;
use crate::models::Subject;

verus! {

/// No two subjects carry the same id.
pub open spec fn subject_ids_unique(s: Seq<Subject>) -> bool {
    forall|i: int, j: int| 0 <= i < j < s.len() ==> s[i].id != s[j].id
}

/// Some subject carries this id.
pub open spec fn has_subject(s: Seq<Subject>, id: i64) -> bool {
    exists|i: int| 0 <= i < s.len() && s[i].id == id
}

/// `s` renamed.
pub open spec fn subject_renamed(s: Subject, name: String) -> Subject {
    Subject { id: s.id, name: name, group_id: s.group_id }
}

/// The subjects of one group, in store order.
pub open spec fn subjects_of_group(s: Seq<Subject>, group_id: i64) -> Seq<Subject> {
    s.filter(|x: Subject| x.group_id == group_id)
}

/// The subject store. Ids are handed out by the store and never reused.
#[derive(Debug)]
pub struct SubjectStore {
    subjects: Vec<Subject>,
    next_id: i64,
}

impl View for SubjectStore {
    type V = Seq<Subject>;

    closed spec fn view(&self) -> Seq<Subject> {
        self.subjects@
    }
}

impl SubjectStore {
    /// Ids are pairwise distinct, at least 1, and below the next free id.
    pub closed spec fn wf(&self) -> bool {
        &&& subject_ids_unique(self.subjects@)
        &&& 1 <= self.next_id
        &&& forall|i: int|
            0 <= i < self.subjects@.len() ==> 1 <= (#[trigger] self.subjects@[i]).id < self.next_id
    }

    /// The id space is not exhausted.
    pub closed spec fn can_allocate(&self) -> bool {
        self.next_id < i64::MAX
    }

    /// An empty store.
    pub fn init() -> (r: Self)
        ensures
            r@ =~= Seq::<Subject>::empty(),
            r.wf(),
            r.can_allocate(),
    {
        SubjectStore { subjects: Vec::new(), next_id: 1 }
    }

    /// Adds a subject under a fresh id and returns the stored record; fails
    /// with `Internal` only when the id space is spent.
    pub fn add_subject(&mut self, name: String, group_id: i64) -> (r: Result<Subject, AppError>)
        requires
            old(self).wf(),
        ensures
            final(self).wf(),
            r is Ok <==> old(self).can_allocate(),
            r is Err ==> r == Err::<Subject, AppError>(AppError::Internal) && final(self)@ == old(
                self,
            )@,
            r is Ok ==> {
                let sub = r->Ok_0;
                &&& final(self)@ =~= old(self)@.push(sub)
                &&& sub.name == name
                &&& sub.group_id == group_id
                &&& forall|i: int|
                    0 <= i < old(self)@.len() ==> #[trigger] old(self)@[i].id != sub.id
            },
    {
        if self.next_id == i64::MAX {
            return Err(AppError::Internal);
        }
        let sub = Subject { id: self.next_id, name: name, group_id: group_id };
        let ret = sub.clone();
        self.subjects.push(sub);
        self.next_id = self.next_id + 1;
        Ok(ret)
    }

    /// Renames the subject under `id` and returns the updated record;
    /// `NotFound` when no subject carries the id.
    pub fn edit_subject(&mut self, id: i64, new_name: String) -> (r: Result<Subject, AppError>)
        requires
            old(self).wf(),
        ensures
            final(self).wf(),
            r is Ok <==> has_subject(old(self)@, id),
            forall|i: int|
                0 <= i < old(self)@.len() && (#[trigger] old(self)@[i]).id == id ==> final(self)@
                    =~= old(self)@.update(i, subject_renamed(old(self)@[i], new_name)) && r == Ok::<
                    Subject,
                    AppError,
                >(subject_renamed(old(self)@[i], new_name)),
            r is Err ==> r == Err::<Subject, AppError>(AppError::NotFound) && final(self)@ == old(
                self,
            )@,
    {
        let n = self.subjects.len();
        let mut k: usize = 0;
        while k < n
            invariant
                self@ == old(self)@,
                self.wf(),
                n == self.subjects.len(),
                k <= n,
                forall|i: int| 0 <= i < k ==> self@[i].id != id,
            decreases n - k,
        {
            if self.subjects[k].id == id {
                let updated = Subject {
                    id: self.subjects[k].id,
                    name: new_name,
                    group_id: self.subjects[k].group_id,
                };
                let ret = updated.clone();
                proof {
                    let ki = k as int;
                    assert forall|i: int|
                        0 <= i < self@.len() && (#[trigger] self@[i]).id == id implies i == ki by {
                        if i < ki {
                            assert(self@[i].id != self@[ki].id);
                        } else if ki < i {
                            assert(self@[ki].id != self@[i].id);
                        }
                    }
                }
                self.subjects.set(k, updated);
                return Ok(ret);
            }
            k = k + 1;
        }
        Err(AppError::NotFound)
    }

    /// Removes the subject under `id`; `NotFound`, with nothing changed,
    /// when no subject carries it.
    pub fn delete_subject(&mut self, id: i64) -> (r: Result<i16, AppError>)
        requires
            old(self).wf(),
        ensures
            final(self).wf(),
            r is Ok <==> has_subject(old(self)@, id),
            r is Ok ==> r == Ok::<i16, AppError>(200),
            r is Err ==> r == Err::<i16, AppError>(AppError::NotFound) && final(self)@ == old(
                self,
            )@,
            forall|i: int| 0 <= i < final(self)@.len() ==> (#[trigger] final(self)@[i]).id != id,
            forall|i: int|
                0 <= i < final(self)@.len() ==> old(self)@.contains(#[trigger] final(self)@[i]),
            forall|i: int|
                0 <= i < old(self)@.len() && (#[trigger] old(self)@[i]).id != id ==> final(self)@.contains(old(self)@[i]),
    {
        let n = self.subjects.len();
        let mut k: usize = 0;
        while k < n
            invariant
                self@ == old(self)@,
                self.wf(),
                n == self.subjects.len(),
                k <= n,
                forall|i: int| 0 <= i < k ==> self@[i].id != id,
            decreases n - k,
        {
            if self.subjects[k].id == id {
                let ghost prev = self@;
                self.subjects.remove(k);
                proof {
                    assert forall|i: int|
                        0 <= i < self@.len() implies (#[trigger] self@[i]).id != id by {
                        if i < k {
                            assert(self@[i] == prev[i]);
                        } else {
                            assert(self@[i] == prev[i + 1]);
                        }
                    }
                    assert forall|i: int|
                        0 <= i < self@.len() implies prev.contains(#[trigger] self@[i]) by {
                        if i < k {
                            assert(self@[i] == prev[i]);
                        } else {
                            assert(self@[i] == prev[i + 1]);
                        }
                    }
                    assert forall|i: int|
                        0 <= i < prev.len() && (#[trigger] prev[i]).id != id
                        implies self@.contains(prev[i]) by {
                        if i < k {
                            assert(self@[i] == prev[i]);
                        } else if i > k {
                            assert(self@[i - 1] == prev[i]);
                        }
                    }
                    assert forall|i: int, j: int|
                        0 <= i < j < self@.len() implies self@[i].id != self@[j].id by {
                        let pi: int = if i < k { i } else { i + 1 };
                        let pj: int = if j < k { j } else { j + 1 };
                        assert(self@[i] == prev[pi]);
                        assert(self@[j] == prev[pj]);
                    }
                }
                return Ok(200);
            }
            k = k + 1;
        }
        Err(AppError::NotFound)
    }

    /// The subject under `id`, or `NotFound`.
    pub fn get_subject_by_id(&self, id: i64) -> (r: Result<Subject, AppError>)
        requires
            self.wf(),
        ensures
            forall|i: int|
                0 <= i < self@.len() && (#[trigger] self@[i]).id == id ==> r == Ok::<
                    Subject,
                    AppError,
                >(self@[i]),
            !has_subject(self@, id) ==> r == Err::<Subject, AppError>(AppError::NotFound),
    {
        let n = self.subjects.len();
        let mut k: usize = 0;
        while k < n
            invariant
                n == self.subjects.len(),
                k <= n,
                self.wf(),
                forall|i: int| 0 <= i < k ==> self@[i].id != id,
            decreases n - k,
        {
            if self.subjects[k].id == id {
                proof {
                    let ki = k as int;
                    assert forall|i: int|
                        0 <= i < self@.len() && (#[trigger] self@[i]).id == id implies i == ki by {
                        if i < ki {
                            assert(self@[i].id != self@[ki].id);
                        } else if ki < i {
                            assert(self@[ki].id != self@[i].id);
                        }
                    }
                }
                return Ok(self.subjects[k].clone());
            }
            k = k + 1;
        }
        Err(AppError::NotFound)
    }

    /// The subjects of one group, in store order.
    pub fn get_subjects_by_group_id(&self, group_id: i64) -> (r: Vec<Subject>)
        ensures
            r@ == subjects_of_group(self@, group_id),
    {
        let n = self.subjects.len();
        let mut out: Vec<Subject> = Vec::new();
        let mut k: usize = 0;
        while k < n
            invariant
                n == self.subjects.len(),
                k <= n,
                out@ == subjects_of_group(self@.subrange(0, k as int), group_id),
            decreases n - k,
        {
            let ghost pre = self@.subrange(0, k as int);
            let ghost e = self@[k as int];
            if self.subjects[k].group_id == group_id {
                out.push(self.subjects[k].clone());
            }
            proof {
                assert(self@.subrange(0, k as int + 1) =~= pre.push(e));
                crate::seq_util::lemma_filter_push(pre, |x: Subject| x.group_id == group_id, e);
            }
            k = k + 1;
        }
        proof {
            assert(self@.subrange(0, n as int) =~= self@);
        }
        out
    }
}

} // verus!

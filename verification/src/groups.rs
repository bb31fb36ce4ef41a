//! The group store: plain reference data keyed by store-assigned id.

use vstd::prelude::*;

use crate::errors::AppError;
use crate::models::Group;

verus! {

/// No two groups carry the same id.
pub open spec fn group_ids_unique(s: Seq<Group>) -> bool {
    forall|i: int, j: int| 0 <= i < j < s.len() ==> s[i].id != s[j].id
}

/// Some group carries this id.
pub open spec fn has_group(s: Seq<Group>, id: i64) -> bool {
    exists|i: int| 0 <= i < s.len() && s[i].id == id
}

/// `g` with name and shift replaced.
pub open spec fn group_updated(g: Group, name: String, shift: i8) -> Group {
    Group { id: g.id, name: name, shift: shift }
}

/// The group store. Ids are handed out by the store and never reused.
#[derive(Debug)]
pub struct GroupStore {
    groups: Vec<Group>,
    next_id: i64,
}

impl View for GroupStore {
    type V = Seq<Group>;

    closed spec fn view(&self) -> Seq<Group> {
        self.groups@
    }
}

impl GroupStore {
    /// Ids are pairwise distinct, at least 1, and below the next free id.
    pub closed spec fn wf(&self) -> bool {
        &&& group_ids_unique(self.groups@)
        &&& 1 <= self.next_id
        &&& forall|i: int|
            0 <= i < self.groups@.len() ==> 1 <= (#[trigger] self.groups@[i]).id < self.next_id
    }

    /// The id space is not exhausted.
    pub closed spec fn can_allocate(&self) -> bool {
        self.next_id < i64::MAX
    }

    /// An empty store.
    pub fn init() -> (r: Self)
        ensures
            r@ =~= Seq::<Group>::empty(),
            r.wf(),
            r.can_allocate(),
    {
        GroupStore { groups: Vec::new(), next_id: 1 }
    }

    /// Adds a group under a fresh id and returns the stored record; fails
    /// with `Internal` only when the id space is spent.
    pub fn add_group(&mut self, name: String, shift: i8) -> (r: Result<Group, AppError>)
        requires
            old(self).wf(),
        ensures
            final(self).wf(),
            r is Ok <==> old(self).can_allocate(),
            r is Err ==> r == Err::<Group, AppError>(AppError::Internal) && final(self)@ == old(
                self,
            )@,
            r is Ok ==> {
                let g = r->Ok_0;
                &&& final(self)@ =~= old(self)@.push(g)
                &&& g.name == name
                &&& g.shift == shift
                &&& forall|i: int| 0 <= i < old(self)@.len() ==> #[trigger] old(self)@[i].id != g.id
            },
    {
        if self.next_id == i64::MAX {
            return Err(AppError::Internal);
        }
        let g = Group { id: self.next_id, name: name, shift: shift };
        let ret = g.clone();
        self.groups.push(g);
        self.next_id = self.next_id + 1;
        Ok(ret)
    }

    /// Every group, in store order.
    pub fn get_groups(&self) -> (r: Vec<Group>)
        ensures
            r@.len() == self@.len(),
            forall|i: int| 0 <= i < self@.len() ==> #[trigger] r@[i] == self@[i],
    {
        let n = self.groups.len();
        let mut out: Vec<Group> = Vec::new();
        let mut k: usize = 0;
        while k < n
            invariant
                n == self.groups.len(),
                k <= n,
                out@.len() == k,
                forall|i: int| 0 <= i < k ==> #[trigger] out@[i] == self@[i],
            decreases n - k,
        {
            out.push(self.groups[k].clone());
            k = k + 1;
        }
        out
    }

    /// The group under `id`, or `NotFound`.
    pub fn get_group_by_id(&self, id: i64) -> (r: Result<Group, AppError>)
        requires
            self.wf(),
        ensures
            forall|i: int|
                0 <= i < self@.len() && (#[trigger] self@[i]).id == id ==> r == Ok::<
                    Group,
                    AppError,
                >(self@[i]),
            !has_group(self@, id) ==> r == Err::<Group, AppError>(AppError::NotFound),
    {
        let n = self.groups.len();
        let mut k: usize = 0;
        while k < n
            invariant
                n == self.groups.len(),
                k <= n,
                self.wf(),
                forall|i: int| 0 <= i < k ==> self@[i].id != id,
            decreases n - k,
        {
            if self.groups[k].id == id {
                proof {
                    let ki = k as int;
                    assert forall|i: int|
                        0 <= i < self@.len() && (#[trigger] self@[i]).id == id implies i == ki by {
                        if i < ki {
                            assert(self@[i].id != self@[ki].id);
                        } else if ki < i {
                            assert(self@[ki].id != self@[i].id);
                        }
                    }
                }
                return Ok(self.groups[k].clone());
            }
            k = k + 1;
        }
        Err(AppError::NotFound)
    }

    /// Replaces name and shift of the group under `id` and returns the
    /// updated record; `NotFound` when no group carries the id.
    pub fn update_group(&mut self, id: i64, new_name: String, new_shift: i8) -> (r: Result<
        Group,
        AppError,
    >)
        requires
            old(self).wf(),
        ensures
            final(self).wf(),
            r is Ok <==> has_group(old(self)@, id),
            forall|i: int|
                0 <= i < old(self)@.len() && (#[trigger] old(self)@[i]).id == id ==> final(self)@
                    =~= old(self)@.update(i, group_updated(old(self)@[i], new_name, new_shift)) && r
                    == Ok::<Group, AppError>(group_updated(old(self)@[i], new_name, new_shift)),
            r is Err ==> r == Err::<Group, AppError>(AppError::NotFound) && final(self)@ == old(
                self,
            )@,
    {
        let n = self.groups.len();
        let mut k: usize = 0;
        while k < n
            invariant
                self@ == old(self)@,
                self.wf(),
                n == self.groups.len(),
                k <= n,
                forall|i: int| 0 <= i < k ==> self@[i].id != id,
            decreases n - k,
        {
            if self.groups[k].id == id {
                let updated = Group { id: self.groups[k].id, name: new_name, shift: new_shift };
                let ret = updated.clone();
                proof {
                    let ki = k as int;
                    assert forall|i: int|
                        0 <= i < self@.len() && (#[trigger] self@[i]).id == id implies i == ki by {
                        if i < ki {
                            assert(self@[i].id != self@[ki].id);
                        } else if ki < i {
                            assert(self@[ki].id != self@[i].id);
                        }
                    }
                }
                self.groups.set(k, updated);
                return Ok(ret);
            }
            k = k + 1;
        }
        Err(AppError::NotFound)
    }

    /// Removes the group under `id`; `NotFound`, with nothing changed, when
    /// no group carries it.
    pub fn delete_group(&mut self, id: i64) -> (r: Result<u16, AppError>)
        requires
            old(self).wf(),
        ensures
            final(self).wf(),
            r is Ok <==> has_group(old(self)@, id),
            r is Ok ==> r == Ok::<u16, AppError>(200),
            r is Err ==> r == Err::<u16, AppError>(AppError::NotFound) && final(self)@ == old(
                self,
            )@,
            forall|i: int| 0 <= i < final(self)@.len() ==> (#[trigger] final(self)@[i]).id != id,
            forall|i: int|
                0 <= i < final(self)@.len() ==> old(self)@.contains(#[trigger] final(self)@[i]),
            forall|i: int|
                0 <= i < old(self)@.len() && (#[trigger] old(self)@[i]).id != id ==> final(self)@.contains(old(self)@[i]),
    {
        let n = self.groups.len();
        let mut k: usize = 0;
        while k < n
            invariant
                self@ == old(self)@,
                self.wf(),
                n == self.groups.len(),
                k <= n,
                forall|i: int| 0 <= i < k ==> self@[i].id != id,
            decreases n - k,
        {
            if self.groups[k].id == id {
                let ghost prev = self@;
                self.groups.remove(k);
                proof {
                    assert forall|i: int|
                        0 <= i < self@.len() implies (#[trigger] self@[i]).id != id by {
                        if i < k {
                            assert(self@[i] == prev[i]);
                        } else {
                            assert(self@[i] == prev[i + 1]);
                        }
                    }
                    assert forall|i: int|
                        0 <= i < self@.len() implies prev.contains(#[trigger] self@[i]) by {
                        if i < k {
                            assert(self@[i] == prev[i]);
                        } else {
                            assert(self@[i] == prev[i + 1]);
                        }
                    }
                    assert forall|i: int|
                        0 <= i < prev.len() && (#[trigger] prev[i]).id != id
                        implies self@.contains(prev[i]) by {
                        if i < k {
                            assert(self@[i] == prev[i]);
                        } else if i > k {
                            assert(self@[i - 1] == prev[i]);
                        }
                    }
                    assert forall|i: int, j: int|
                        0 <= i < j < self@.len() implies self@[i].id != self@[j].id by {
                        let pi: int = if i < k { i } else { i + 1 };
                        let pj: int = if j < k { j } else { j + 1 };
                        assert(self@[i] == prev[pi]);
                        assert(self@[j] == prev[pj]);
                    }
                }
                return Ok(200);
            }
            k = k + 1;
        }
        Err(AppError::NotFound)
    }
}

} // verus!

//! The principal directory: the store of teacher records, looked up by id
//! on every role-gated request and by login when a session is opened.

use vstd::prelude::*;

use crate::errors::AppError;
use crate::models::Teacher;
use crate::models::TeacherSafe;
use crate::models::safe_view;

verus! {

/// No two records carry the same id.
pub open spec fn teacher_ids_unique(s: Seq<Teacher>) -> bool {
    forall|i: int, j: int| 0 <= i < j < s.len() ==> s[i].id != s[j].id
}

/// Some record carries this id.
pub open spec fn has_teacher(s: Seq<Teacher>, id: i64) -> bool {
    exists|i: int| 0 <= i < s.len() && s[i].id == id
}

/// Some record carries this login.
pub open spec fn has_login(s: Seq<Teacher>, login: Seq<char>) -> bool {
    exists|i: int| 0 <= i < s.len() && s[i].login@ == login
}

/// `t` with its password hash replaced.
pub open spec fn hash_updated(t: Teacher, password_hash: String) -> Teacher {
    Teacher {
        id: t.id,
        login: t.login,
        password_hash: password_hash,
        full_name: t.full_name,
        role: t.role,
    }
}

/// `t` with its login replaced.
pub open spec fn login_updated(t: Teacher, login: String) -> Teacher {
    Teacher {
        id: t.id,
        login: login,
        password_hash: t.password_hash,
        full_name: t.full_name,
        role: t.role,
    }
}

/// `t` with its display name replaced.
pub open spec fn fullname_updated(t: Teacher, full_name: String) -> Teacher {
    Teacher {
        id: t.id,
        login: t.login,
        password_hash: t.password_hash,
        full_name: full_name,
        role: t.role,
    }
}

/// The teacher directory. Ids are handed out by the store and never reused.
#[derive(Debug)]
pub struct TeacherStore {
    teachers: Vec<Teacher>,
    next_id: i64,
}

impl View for TeacherStore {
    type V = Seq<Teacher>;

    closed spec fn view(&self) -> Seq<Teacher> {
        self.teachers@
    }
}

impl TeacherStore {
    /// Ids are pairwise distinct, at least 1, and below the next free id.
    pub closed spec fn wf(&self) -> bool {
        &&& teacher_ids_unique(self.teachers@)
        &&& 1 <= self.next_id
        &&& forall|i: int|
            0 <= i < self.teachers@.len() ==> 1 <= #[trigger] self.teachers@[i].id < self.next_id
    }

    /// The id space is not exhausted, so one more record can be added.
    pub closed spec fn can_allocate(&self) -> bool {
        self.next_id < i64::MAX
    }

    /// An empty directory.
    pub fn init() -> (r: Self)
        ensures
            r@ =~= Seq::<Teacher>::empty(),
            r.wf(),
            r.can_allocate(),
    {
        TeacherStore { teachers: Vec::new(), next_id: 1 }
    }

    /// Every record, projected to its public fields in store order.
    pub fn get_teachers(&self) -> (r: Vec<TeacherSafe>)
        ensures
            r@.len() == self@.len(),
            forall|i: int| 0 <= i < self@.len() ==> r@[i] == safe_view(self@[i]),
    {
        let n = self.teachers.len();
        let mut out: Vec<TeacherSafe> = Vec::new();
        let mut k: usize = 0;
        while k < n
            invariant
                n == self.teachers.len(),
                k <= n,
                out@.len() == k,
                forall|i: int| 0 <= i < k ==> out@[i] == safe_view(self@[i]),
            decreases n - k,
        {
            let t = &self.teachers[k];
            out.push(
                TeacherSafe { id: t.id, full_name: t.full_name.clone(), role: t.role.clone() },
            );
            k = k + 1;
        }
        out
    }

    /// Adds a record under a fresh id with the reserved-free empty role and
    /// returns it; fails with `Internal` only when the id space is spent.
    pub fn add_teacher(&mut self, login: String, password_hash: String, full_name: String) -> (r:
        Result<Teacher, AppError>)
        requires
            old(self).wf(),
        ensures
            final(self).wf(),
            r is Ok <==> old(self).can_allocate(),
            r is Err ==> r == Err::<Teacher, AppError>(AppError::Internal) && final(self)@ == old(self)@,
            r is Ok ==> {
                let t = r->Ok_0;
                &&& final(self)@ =~= old(self)@.push(t)
                &&& t.login == login
                &&& t.password_hash == password_hash
                &&& t.full_name == full_name
                &&& t.role@ == Seq::<char>::empty()
                &&& forall|i: int| 0 <= i < old(self)@.len() ==> #[trigger] old(self)@[i].id != t.id
            },
    {
        if self.next_id == i64::MAX {
            return Err(AppError::Internal);
        }
        let t = Teacher {
            id: self.next_id,
            login: login,
            password_hash: password_hash,
            full_name: full_name,
            role: String::new(),
        };
        let ret = t.clone();
        self.teachers.push(t);
        self.next_id = self.next_id + 1;
        Ok(ret)
    }

    /// The record under `id`, or `NotFound` when no record carries it.
    pub fn get_teacher_by_id(&self, id: i64) -> (r: Result<Teacher, AppError>)
        requires
            self.wf(),
        ensures
            forall|i: int|
                0 <= i < self@.len() && #[trigger] self@[i].id == id ==> r == Ok::<
                    Teacher,
                    AppError,
                >(self@[i]),
            !has_teacher(self@, id) ==> r == Err::<Teacher, AppError>(AppError::NotFound),
    {
        let n = self.teachers.len();
        let mut k: usize = 0;
        while k < n
            invariant
                n == self.teachers.len(),
                k <= n,
                self.wf(),
                forall|i: int| 0 <= i < k ==> self@[i].id != id,
            decreases n - k,
        {
            if self.teachers[k].id == id {
                proof {
                    let ki = k as int;
                    assert forall|i: int|
                        0 <= i < self@.len() && #[trigger] self@[i].id == id implies i == ki by {
                        if i < ki {
                            assert(self@[i].id != self@[ki].id);
                        } else if ki < i {
                            assert(self@[ki].id != self@[i].id);
                        }
                    }
                }
                return Ok(self.teachers[k].clone());
            }
            k = k + 1;
        }
        Err(AppError::NotFound)
    }

    /// Some record whose login equals `login`, or `NotFound`. Logins are not
    /// required to be unique, so which matching record comes back is left
    /// open, as the backing store leaves it open.
    pub fn get_teacher_by_login(&self, login: &String) -> (r: Result<Teacher, AppError>)
        ensures
            r is Ok ==> self@.contains(r->Ok_0) && r->Ok_0.login@ == login@,
            r is Err ==> r == Err::<Teacher, AppError>(AppError::NotFound) && !has_login(
                self@,
                login@,
            ),
            has_login(self@, login@) ==> r is Ok,
    {
        let n = self.teachers.len();
        let mut k: usize = 0;
        while k < n
            invariant
                n == self.teachers.len(),
                k <= n,
                forall|i: int| 0 <= i < k ==> self@[i].login@ != login@,
            decreases n - k,
        {
            if self.teachers[k].login == *login {
                let ret = self.teachers[k].clone();
                proof {
                    assert(self@[k as int] == ret);
                }
                return Ok(ret);
            }
            k = k + 1;
        }
        Err(AppError::NotFound)
    }

    /// Removes the record under `id`; `NotFound` when no record carries it,
    /// with the store unchanged.
    pub fn delete_teacher(&mut self, id: i64) -> (r: Result<i16, AppError>)
        requires
            old(self).wf(),
        ensures
            final(self).wf(),
            r is Ok <==> has_teacher(old(self)@, id),
            r is Ok ==> r == Ok::<i16, AppError>(200),
            r is Err ==> r == Err::<i16, AppError>(AppError::NotFound) && final(self)@ == old(self)@,
            forall|i: int| 0 <= i < final(self)@.len() ==> #[trigger] final(self)@[i].id != id,
            forall|i: int|
                0 <= i < final(self)@.len() ==> old(self)@.contains(#[trigger] final(self)@[i]),
            forall|i: int|
                0 <= i < old(self)@.len() && #[trigger] old(self)@[i].id != id ==> final(self)@.contains(old(self)@[i]),
    {
        let n = self.teachers.len();
        let mut k: usize = 0;
        while k < n
            invariant
                self@ == old(self)@,
                self.wf(),
                n == self.teachers.len(),
                k <= n,
                forall|i: int| 0 <= i < k ==> self@[i].id != id,
            decreases n - k,
        {
            if self.teachers[k].id == id {
                let ghost prev = self@;
                self.teachers.remove(k);
                proof {
                    assert forall|i: int|
                        0 <= i < self@.len() implies #[trigger] self@[i].id != id by {
                        if i < k {
                            assert(self@[i] == prev[i]);
                        } else {
                            assert(self@[i] == prev[i + 1]);
                        }
                    }
                    assert forall|i: int|
                        0 <= i < self@.len() implies prev.contains(#[trigger] self@[i]) by {
                        if i < k {
                            assert(self@[i] == prev[i]);
                        } else {
                            assert(self@[i] == prev[i + 1]);
                        }
                    }
                    assert forall|i: int|
                        0 <= i < prev.len() && #[trigger] prev[i].id != id implies self@.contains(
                        prev[i],
                    ) by {
                        if i < k {
                            assert(self@[i] == prev[i]);
                        } else if i > k {
                            assert(self@[i - 1] == prev[i]);
                        }
                    }
                    assert forall|i: int, j: int|
                        0 <= i < j < self@.len() implies self@[i].id != self@[j].id by {
                        let pi: int = if i < k { i } else { i + 1 };
                        let pj: int = if j < k { j } else { j + 1 };
                        assert(self@[i] == prev[pi]);
                        assert(self@[j] == prev[pj]);
                    }
                }
                return Ok(200);
            }
            k = k + 1;
        }
        Err(AppError::NotFound)
    }

    /// Replaces the password hash of the record under `id` and returns the
    /// updated record; `NotFound` when no record carries the id.
    pub fn update_teacher_hash(&mut self, id: i64, password_hash: String) -> (r: Result<
        Teacher,
        AppError,
    >)
        requires
            old(self).wf(),
        ensures
            final(self).wf(),
            r is Ok <==> has_teacher(old(self)@, id),
            forall|i: int|
                0 <= i < old(self)@.len() && #[trigger] old(self)@[i].id == id ==> final(self)@
                    =~= old(self)@.update(i, hash_updated(old(self)@[i], password_hash)) && r
                    == Ok::<Teacher, AppError>(hash_updated(old(self)@[i], password_hash)),
            r is Err ==> r == Err::<Teacher, AppError>(AppError::NotFound) && final(self)@ == old(self)@,
    {
        let n = self.teachers.len();
        let mut k: usize = 0;
        while k < n
            invariant
                self@ == old(self)@,
                self.wf(),
                n == self.teachers.len(),
                k <= n,
                forall|i: int| 0 <= i < k ==> self@[i].id != id,
            decreases n - k,
        {
            if self.teachers[k].id == id {
                let cur = &self.teachers[k];
                let updated = Teacher {
                    id: cur.id,
                    login: cur.login.clone(),
                    password_hash: password_hash,
                    full_name: cur.full_name.clone(),
                    role: cur.role.clone(),
                };
                let ret = updated.clone();
                proof {
                    let ki = k as int;
                    assert forall|i: int|
                        0 <= i < self@.len() && #[trigger] self@[i].id == id implies i == ki by {
                        if i < ki {
                            assert(self@[i].id != self@[ki].id);
                        } else if ki < i {
                            assert(self@[ki].id != self@[i].id);
                        }
                    }
                }
                self.teachers.set(k, updated);
                return Ok(ret);
            }
            k = k + 1;
        }
        Err(AppError::NotFound)
    }

    /// Replaces the login of the record under `id` and returns the updated
    /// record; `NotFound` when no record carries the id.
    pub fn update_teacher_login(&mut self, id: i64, login: String) -> (r: Result<Teacher, AppError>)
        requires
            old(self).wf(),
        ensures
            final(self).wf(),
            r is Ok <==> has_teacher(old(self)@, id),
            forall|i: int|
                0 <= i < old(self)@.len() && #[trigger] old(self)@[i].id == id ==> final(self)@
                    =~= old(self)@.update(i, login_updated(old(self)@[i], login)) && r == Ok::<
                    Teacher,
                    AppError,
                >(login_updated(old(self)@[i], login)),
            r is Err ==> r == Err::<Teacher, AppError>(AppError::NotFound) && final(self)@ == old(self)@,
    {
        let n = self.teachers.len();
        let mut k: usize = 0;
        while k < n
            invariant
                self@ == old(self)@,
                self.wf(),
                n == self.teachers.len(),
                k <= n,
                forall|i: int| 0 <= i < k ==> self@[i].id != id,
            decreases n - k,
        {
            if self.teachers[k].id == id {
                let cur = &self.teachers[k];
                let updated = Teacher {
                    id: cur.id,
                    login: login,
                    password_hash: cur.password_hash.clone(),
                    full_name: cur.full_name.clone(),
                    role: cur.role.clone(),
                };
                let ret = updated.clone();
                proof {
                    let ki = k as int;
                    assert forall|i: int|
                        0 <= i < self@.len() && #[trigger] self@[i].id == id implies i == ki by {
                        if i < ki {
                            assert(self@[i].id != self@[ki].id);
                        } else if ki < i {
                            assert(self@[ki].id != self@[i].id);
                        }
                    }
                }
                self.teachers.set(k, updated);
                return Ok(ret);
            }
            k = k + 1;
        }
        Err(AppError::NotFound)
    }

    /// Replaces the display name of the record under `id` and returns the
    /// updated record; `NotFound` when no record carries the id.
    pub fn update_teacher_fullname(&mut self, id: i64, full_name: String) -> (r: Result<
        Teacher,
        AppError,
    >)
        requires
            old(self).wf(),
        ensures
            final(self).wf(),
            r is Ok <==> has_teacher(old(self)@, id),
            forall|i: int|
                0 <= i < old(self)@.len() && #[trigger] old(self)@[i].id == id ==> final(self)@
                    =~= old(self)@.update(i, fullname_updated(old(self)@[i], full_name)) && r
                    == Ok::<Teacher, AppError>(fullname_updated(old(self)@[i], full_name)),
            r is Err ==> r == Err::<Teacher, AppError>(AppError::NotFound) && final(self)@ == old(self)@,
    {
        let n = self.teachers.len();
        let mut k: usize = 0;
        while k < n
            invariant
                self@ == old(self)@,
                self.wf(),
                n == self.teachers.len(),
                k <= n,
                forall|i: int| 0 <= i < k ==> self@[i].id != id,
            decreases n - k,
        {
            if self.teachers[k].id == id {
                let cur = &self.teachers[k];
                let updated = Teacher {
                    id: cur.id,
                    login: cur.login.clone(),
                    password_hash: cur.password_hash.clone(),
                    full_name: full_name,
                    role: cur.role.clone(),
                };
                let ret = updated.clone();
                proof {
                    let ki = k as int;
                    assert forall|i: int|
                        0 <= i < self@.len() && #[trigger] self@[i].id == id implies i == ki by {
                        if i < ki {
                            assert(self@[i].id != self@[ki].id);
                        } else if ki < i {
                            assert(self@[ki].id != self@[i].id);
                        }
                    }
                }
                self.teachers.set(k, updated);
                return Ok(ret);
            }
            k = k + 1;
        }
        Err(AppError::NotFound)
    }

    /// Sets the role of the record under `id`. The transport surface has no
    /// route for this; it exists so a deployment can appoint its admin, and
    /// because the authorization gate's behaviour depends on it.
    pub fn set_role(&mut self, id: i64, role: String) -> (r: Result<(), AppError>)
        requires
            old(self).wf(),
        ensures
            final(self).wf(),
            r is Ok <==> has_teacher(old(self)@, id),
            forall|i: int|
                0 <= i < old(self)@.len() && #[trigger] old(self)@[i].id == id ==> final(self)@
                    =~= old(self)@.update(i, role_updated(old(self)@[i], role)),
            r is Err ==> r == Err::<(), AppError>(AppError::NotFound) && final(self)@ == old(self)@,
    {
        let n = self.teachers.len();
        let mut k: usize = 0;
        while k < n
            invariant
                self@ == old(self)@,
                self.wf(),
                n == self.teachers.len(),
                k <= n,
                forall|i: int| 0 <= i < k ==> self@[i].id != id,
            decreases n - k,
        {
            if self.teachers[k].id == id {
                let cur = &self.teachers[k];
                let updated = Teacher {
                    id: cur.id,
                    login: cur.login.clone(),
                    password_hash: cur.password_hash.clone(),
                    full_name: cur.full_name.clone(),
                    role: role,
                };
                proof {
                    let ki = k as int;
                    assert forall|i: int|
                        0 <= i < self@.len() && #[trigger] self@[i].id == id implies i == ki by {
                        if i < ki {
                            assert(self@[i].id != self@[ki].id);
                        } else if ki < i {
                            assert(self@[ki].id != self@[i].id);
                        }
                    }
                }
                self.teachers.set(k, updated);
                return Ok(());
            }
            k = k + 1;
        }
        Err(AppError::NotFound)
    }
}

/// `t` with its role replaced.
pub open spec fn role_updated(t: Teacher, role: String) -> Teacher {
    Teacher {
        id: t.id,
        login: t.login,
        password_hash: t.password_hash,
        full_name: t.full_name,
        role: role,
    }
}

} // verus!

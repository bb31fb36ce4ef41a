//! The teacher-link store: which teacher teaches which subject to which
//! group. The link itself is the identity, so the store keeps no
//! duplicates: inserting an existing link leaves the store as it is.

use vstd::prelude::*;

use crate::errors::AppError;
use crate::models::TeacherLink;
use crate::seq_util::lemma_filter_all;
use crate::seq_util::lemma_filter_push;
use crate::seq_util::lemma_filter_unique_keys;

verus! {

/// No link occurs twice.
pub open spec fn links_unique(s: Seq<TeacherLink>) -> bool {
    forall|i: int, j: int| 0 <= i < j < s.len() ==> s[i] != s[j]
}

/// The links of one group, in store order.
pub open spec fn links_of_group(s: Seq<TeacherLink>, group_id: i64) -> Seq<TeacherLink> {
    s.filter(|l: TeacherLink| l.group_id == group_id)
}

/// The teacher-link store.
#[derive(Debug)]
pub struct LinkStore {
    links: Vec<TeacherLink>,
}

impl View for LinkStore {
    type V = Seq<TeacherLink>;

    closed spec fn view(&self) -> Seq<TeacherLink> {
        self.links@
    }
}

impl LinkStore {
    /// An empty store.
    pub fn init() -> (r: Self)
        ensures
            r@ =~= Seq::<TeacherLink>::empty(),
            links_unique(r@),
    {
        LinkStore { links: Vec::new() }
    }

    /// Stores the link and returns it. Inserting a link that is already
    /// stored changes nothing: the upsert absorbs the duplicate. Never
    /// fails.
    pub fn add_teacher_link(&mut self, group_id: i64, teacher_id: i64, subject_id: i64) -> (r:
        Result<TeacherLink, AppError>)
        requires
            links_unique(old(self)@),
        ensures
            links_unique(final(self)@),
            r == Ok::<TeacherLink, AppError>(
                TeacherLink { teacher_id: teacher_id, group_id: group_id, subject_id: subject_id },
            ),
            final(self)@ == (if old(self)@.contains(
                TeacherLink { teacher_id: teacher_id, group_id: group_id, subject_id: subject_id },
            ) {
                old(self)@
            } else {
                old(self)@.push(
                    TeacherLink {
                        teacher_id: teacher_id,
                        group_id: group_id,
                        subject_id: subject_id,
                    },
                )
            }),
    {
        let link = TeacherLink { teacher_id: teacher_id, group_id: group_id, subject_id: subject_id };
        let n = self.links.len();
        let mut k: usize = 0;
        while k < n
            invariant
                link == (TeacherLink {
                    teacher_id: teacher_id,
                    group_id: group_id,
                    subject_id: subject_id,
                }),
                self@ == old(self)@,
                links_unique(self@),
                n == self.links.len(),
                k <= n,
                forall|i: int| 0 <= i < k ==> self@[i] != link,
            decreases n - k,
        {
            if self.links[k].teacher_id == teacher_id && self.links[k].group_id == group_id
                && self.links[k].subject_id == subject_id {
                proof {
                    assert(self@[k as int] =~= link);
                }
                return Ok(link);
            }
            k = k + 1;
        }
        self.links.push(link);
        Ok(link)
    }

    /// The links of one group, in store order.
    pub fn get_teacher_links(&self, group_id: i64) -> (r: Vec<TeacherLink>)
        ensures
            r@ == links_of_group(self@, group_id),
    {
        let n = self.links.len();
        let mut out: Vec<TeacherLink> = Vec::new();
        let mut k: usize = 0;
        while k < n
            invariant
                n == self.links.len(),
                k <= n,
                out@ == links_of_group(self@.subrange(0, k as int), group_id),
            decreases n - k,
        {
            let ghost pre = self@.subrange(0, k as int);
            let ghost e = self@[k as int];
            if self.links[k].group_id == group_id {
                out.push(self.links[k]);
            }
            proof {
                assert(self@.subrange(0, k as int + 1) =~= pre.push(e));
                lemma_filter_push(pre, |l: TeacherLink| l.group_id == group_id, e);
            }
            k = k + 1;
        }
        proof {
            assert(self@.subrange(0, n as int) =~= self@);
        }
        out
    }

    /// Removes exactly the given link; `NotFound`, with nothing changed,
    /// when it is not stored.
    pub fn delete_teacher_link(&mut self, group_id: i64, teacher_id: i64, subject_id: i64) -> (r:
        Result<i16, AppError>)
        requires
            links_unique(old(self)@),
        ensures
            links_unique(final(self)@),
            r is Ok <==> old(self)@.contains(
                TeacherLink { teacher_id: teacher_id, group_id: group_id, subject_id: subject_id },
            ),
            r is Ok ==> r == Ok::<i16, AppError>(200),
            r is Err ==> r == Err::<i16, AppError>(AppError::NotFound) && final(self)@ == old(
                self,
            )@,
            final(self)@ == old(self)@.filter(
                |l: TeacherLink| l
                    != (TeacherLink {
                    teacher_id: teacher_id,
                    group_id: group_id,
                    subject_id: subject_id,
                }),
            ),
    {
        let link = TeacherLink { teacher_id: teacher_id, group_id: group_id, subject_id: subject_id };
        let n = self.links.len();
        let mut kept: Vec<TeacherLink> = Vec::new();
        let mut found = false;
        let mut k: usize = 0;
        while k < n
            invariant
                link == (TeacherLink {
                    teacher_id: teacher_id,
                    group_id: group_id,
                    subject_id: subject_id,
                }),
                self@ == old(self)@,
                links_unique(self@),
                n == self.links.len(),
                k <= n,
                kept@ == old(self)@.subrange(0, k as int).filter(
                    |l: TeacherLink| l
                        != (TeacherLink {
                        teacher_id: teacher_id,
                        group_id: group_id,
                        subject_id: subject_id,
                    }),
                ),
                found == old(self)@.subrange(0, k as int).contains(link),
            decreases n - k,
        {
            let ghost pre = old(self)@.subrange(0, k as int);
            let ghost e = old(self)@[k as int];
            if self.links[k].teacher_id == teacher_id && self.links[k].group_id == group_id
                && self.links[k].subject_id == subject_id {
                found = true;
                proof {
                    assert(pre.push(e)[k as int] == e);
                    assert(e =~= link);
                }
            } else {
                kept.push(self.links[k]);
                proof {
                    assert forall|i: int|
                        0 <= i < pre.push(e).len() && pre.push(e)[i] == link
                        implies pre.contains(link) by {
                        if i < pre.len() {
                            assert(pre[i] == pre.push(e)[i]);
                        } else {
                            assert(pre.push(e)[i] == e);
                        }
                    }
                }
            }
            proof {
                assert(old(self)@.subrange(0, k as int + 1) =~= pre.push(e));
                lemma_filter_push(pre, |l: TeacherLink| l != link, e);
            }
            k = k + 1;
        }
        proof {
            assert(old(self)@.subrange(0, n as int) =~= old(self)@);
        }
        if !found {
            proof {
                assert forall|i: int|
                    0 <= i < old(self)@.len() implies (|l: TeacherLink| l != link)(
                    #[trigger] old(self)@[i],
                ) by {
                    if old(self)@[i] == link {
                        assert(old(self)@.contains(link));
                        let m = choose|m: int| 0 <= m < old(self)@.len() && old(self)@[m] == link;
                    }
                }
                lemma_filter_all(old(self)@, |l: TeacherLink| l != link);
            }
            self.links = kept;
            return Err(AppError::NotFound);
        }
        self.links = kept;
        proof {
            lemma_filter_unique_keys(old(self)@, |l: TeacherLink| l != link, |l: TeacherLink| l);
        }
        Ok(200)
    }
}

} // verus!

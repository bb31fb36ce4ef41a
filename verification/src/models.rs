//! The records the service exchanges with its clients and keeps in its
//! stores: principals (teachers), groups, subjects, teacher links, and the
//! request/response bodies of the authentication flow.

use vstd::prelude::*;

verus! {

/// Static configuration of the running service. Reading it from the
/// process environment is the caller's concern; the core only carries it.
#[derive(Debug)]
pub struct Config {
    pub database_url: String,
    pub ip: String,
    pub port: String,
    pub redis_address: String,
}

/// Credentials presented on login.
#[derive(Debug)]
pub struct LoginRequest {
    pub login: String,
    pub password: String,
}

/// What a successful login returns: the fresh session token plus the
/// principal's role and id.
#[derive(Debug)]
pub struct LoginResponse {
    pub token: String,
    pub role: String,
    pub id: i64,
}

/// The token a logout revokes.
#[derive(Debug)]
pub struct LogoutRequest {
    pub token: String,
}

/// A notification request aimed at one group's topic.
#[derive(Debug, Clone, Copy, PartialEq, Eq, Structural)]
pub struct FcmGroupRequest {
    pub group_id: i64,
}

/// A notification request aimed at a list of teacher topics.
#[derive(Debug)]
pub struct FcmTeachersRequest {
    pub teacher_ids: Vec<i64>,
}

/// A student group.
#[derive(Debug)]
pub struct Group {
    pub id: i64,
    pub name: String,
    pub shift: i8,
}

impl Clone for Group {
    fn clone(&self) -> (r: Self)
        ensures
            r == *self,
    {
        Group { id: self.id, name: self.name.clone(), shift: self.shift }
    }
}

/// Payload for creating a group.
#[derive(Debug)]
pub struct AddGroupRequest {
    pub name: String,
    pub shift: i8,
}

/// A subject taught to one group.
#[derive(Debug)]
pub struct Subject {
    pub id: i64,
    pub name: String,
    pub group_id: i64,
}

impl Clone for Subject {
    fn clone(&self) -> (r: Self)
        ensures
            r == *self,
    {
        Subject { id: self.id, name: self.name.clone(), group_id: self.group_id }
    }
}

/// Payload for creating a subject.
#[derive(Debug)]
pub struct AddSubjectRequest {
    pub name: String,
    pub group_id: i64,
}

/// Payload for renaming a subject.
#[derive(Debug)]
pub struct EditSubjectRequest {
    pub id: i64,
    pub new_name: String,
}

/// A principal: an authenticated actor with a role. The role "admin" is a
/// reserved wildcard that passes every allow-list.
#[derive(Debug)]
pub struct Teacher {
    pub id: i64,
    pub login: String,
    pub password_hash: String,
    pub full_name: String,
    pub role: String,
}

impl Clone for Teacher {
    fn clone(&self) -> (r: Self)
        ensures
            r == *self,
    {
        Teacher {
            id: self.id,
            login: self.login.clone(),
            password_hash: self.password_hash.clone(),
            full_name: self.full_name.clone(),
            role: self.role.clone(),
        }
    }
}

/// The public projection of a principal: everything but the credentials.
#[derive(Debug)]
pub struct TeacherSafe {
    pub id: i64,
    pub full_name: String,
    pub role: String,
}

/// What `TeacherSafe` keeps of a full principal record.
pub open spec fn safe_view(t: Teacher) -> TeacherSafe {
    TeacherSafe { id: t.id, full_name: t.full_name, role: t.role }
}

/// Payload for creating a teacher; the password arrives in the clear and is
/// hashed before it reaches the directory.
#[derive(Debug)]
pub struct AddTeacherRequest {
    pub login: String,
    pub password: String,
    pub full_name: String,
}

/// Payload for changing a teacher's login.
#[derive(Debug)]
pub struct EditTeacherLoginRequest {
    pub id: i64,
    pub login: String,
}

/// Payload for changing a teacher's password.
#[derive(Debug)]
pub struct EditTeacherPasswordRequest {
    pub id: i64,
    pub password: String,
}

/// Payload for changing a teacher's display name.
#[derive(Debug)]
pub struct EditTeacherFullnameRequest {
    pub id: i64,
    pub full_name: String,
}

/// A teacher teaching a subject to a group.
#[derive(Debug, Clone, Copy, PartialEq, Eq, Structural)]
#[verifier::ext_equal]
pub struct TeacherLink {
    pub teacher_id: i64,
    pub group_id: i64,
    pub subject_id: i64,
}

} // verus!

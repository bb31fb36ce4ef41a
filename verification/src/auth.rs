//! The two request gates: token authentication against the session store,
//! and role authorization against the principal directory.
//!
//! Authentication only touches the (cheap, cache-backed) session store;
//! authorization loads the principal record fresh on every request, so a
//! role change takes effect on the very next request.

use vstd::prelude::*;

use crate::errors::AppError;
use crate::models::LoginResponse;
use crate::models::LogoutRequest;
use crate::models::Teacher;
use crate::directory::TeacherStore;
use crate::directory::has_teacher;
use crate::session::RedisState;
use crate::session::SESSION_TTL_SECONDS;
use crate::session::Session;
use crate::session::resolve_spec;
use crate::session::tokens_unique;

verus! {

/// The header value carries a bearer token: it opens with the scheme prefix.
pub open spec fn bearer_shaped(h: Seq<char>) -> bool {
    h.len() >= 7 && h.subrange(0, 7) == "Bearer "@
}

/// Strips the bearer scheme from an authorization header value: the token
/// after the prefix when the value is shaped `Bearer <token>`, absence
/// otherwise.
pub fn extract_bearer(header: &String) -> (r: Option<String>)
    ensures
        r is Some <==> bearer_shaped(header@),
        r is Some ==> r->Some_0@ == header@.subrange(7, header@.len() as int),
{
    proof {
        reveal_strlit("Bearer ");
    }
    let h = header.as_str();
    let n = h.unicode_len();
    if n < 7 {
        return None;
    }
    if h.get_char(0) != 'B' || h.get_char(1) != 'e' || h.get_char(2) != 'a' || h.get_char(3) != 'r'
        || h.get_char(4) != 'e' || h.get_char(5) != 'r' || h.get_char(6) != ' ' {
        proof {
            assert(header@.subrange(0, 7) != "Bearer "@) by {
                assert(header@.subrange(0, 7)[0] == header@[0]);
                assert(header@.subrange(0, 7)[1] == header@[1]);
                assert(header@.subrange(0, 7)[2] == header@[2]);
                assert(header@.subrange(0, 7)[3] == header@[3]);
                assert(header@.subrange(0, 7)[4] == header@[4]);
                assert(header@.subrange(0, 7)[5] == header@[5]);
                assert(header@.subrange(0, 7)[6] == header@[6]);
            }
        }
        return None;
    }
    let token = h.substring_char(7, n);
    proof {
        assert(header@.subrange(0, 7) =~= "Bearer "@) by {
            assert(header@.subrange(0, 7)[0] == header@[0]);
            assert(header@.subrange(0, 7)[1] == header@[1]);
            assert(header@.subrange(0, 7)[2] == header@[2]);
            assert(header@.subrange(0, 7)[3] == header@[3]);
            assert(header@.subrange(0, 7)[4] == header@[4]);
            assert(header@.subrange(0, 7)[5] == header@[5]);
            assert(header@.subrange(0, 7)[6] == header@[6]);
        }
    }
    Some(String::from_str(token))
}

/// The authentication gate: reads the `Authorization` header value, demands
/// the bearer scheme, and resolves the token to a principal id. A missing
/// or malformed header is rejected before the session store is consulted;
/// an unresolvable token is rejected as invalid.
pub fn authenticate(sessions: &RedisState, authorization: Option<&String>, now: u64) -> (r: Result<
    i64,
    AppError,
>)
    requires
        tokens_unique(sessions@),
    ensures
        (match authorization {
            None => (r matches Err(AppError::BadRequest(m)) && m@ == "Missing token"@),
            Some(h) => {
                if !bearer_shaped(h@) {
                    r matches Err(AppError::BadRequest(m)) && m@ == "Missing token"@
                } else {
                    match resolve_spec(sessions@, h@.subrange(7, h@.len() as int), now) {
                        Some(uid) => r == Ok::<i64, AppError>(uid),
                        None => (r matches Err(AppError::BadRequest(m)) && m@
                            == "Invalid token"@),
                    }
                }
            },
        }),
{
    match authorization {
        None => Err(AppError::BadRequest(String::from_str("Missing token"))),
        Some(h) => {
            match extract_bearer(h) {
                None => Err(AppError::BadRequest(String::from_str("Missing token"))),
                Some(token) => {
                    match sessions.get_session(&token, now) {
                        Some(user_id) => Ok(user_id),
                        None => Err(AppError::BadRequest(String::from_str("Invalid token"))),
                    }
                },
            }
        },
    }
}

/// A role passes an allow-list when it is the reserved wildcard "admin" or
/// is literally listed.
pub open spec fn spec_role_allows(role: Seq<char>, allow: Seq<String>) -> bool {
    role == "admin"@ || exists|i: int| 0 <= i < allow.len() && allow[i]@ == role
}

/// The two-tier decision rule of the authorization gate.
pub fn role_allows(role: &String, allow: &Vec<String>) -> (r: bool)
    ensures
        r == spec_role_allows(role@, allow@),
{
    let admin = String::from_str("admin");
    if *role == admin {
        return true;
    }
    let n = allow.len();
    let mut k: usize = 0;
    while k < n
        invariant
            n == allow.len(),
            k <= n,
            forall|i: int| 0 <= i < k ==> allow@[i]@ != role@,
        decreases n - k,
    {
        if allow[k] == *role {
            return true;
        }
        k = k + 1;
    }
    false
}

/// The role authorization gate. It requires a principal id already resolved
/// by the authentication gate (absence is a contract violation, reported as
/// unauthenticated), loads the full record fresh from the directory (a miss
/// there is store inconsistency, reported as internal), and applies the
/// two-tier rule: the reserved role "admin" passes every allow-list, any
/// other role must be listed. On grant the full record is handed back so
/// handlers need no second lookup.
pub fn require_role(directory: &TeacherStore, principal: Option<i64>, allow: &Vec<String>) -> (r:
    Result<Teacher, AppError>)
    requires
        directory.wf(),
    ensures
        principal is None ==> r == Err::<Teacher, AppError>(AppError::Unauthorized),
        principal matches Some(id) && !has_teacher(directory@, id) ==> r == Err::<
            Teacher,
            AppError,
        >(AppError::Internal),
        principal matches Some(id) ==> forall|i: int|
            0 <= i < directory@.len() && (#[trigger] directory@[i]).id == id ==> r == (
            if spec_role_allows(directory@[i].role@, allow@) {
                Ok::<Teacher, AppError>(directory@[i])
            } else {
                Err::<Teacher, AppError>(AppError::Forbidden)
            }),
{
    let id = match principal {
        None => {
            return Err(AppError::Unauthorized);
        },
        Some(id) => id,
    };
    let teacher = match directory.get_teacher_by_id(id) {
        Err(_) => {
            return Err(AppError::Internal);
        },
        Ok(t) => t,
    };
    if role_allows(&teacher.role, allow) {
        Ok(teacher)
    } else {
        Err(AppError::Forbidden)
    }
}

/// Completes a login whose password has already been checked against the
/// stored hash: rejects a failed check without touching any state, and
/// otherwise opens a session for the principal and returns the token with
/// the principal's role and id.
pub fn login_verified(teacher: &Teacher, password_ok: bool, sessions: &mut RedisState, now: u64) -> (r:
    Result<LoginResponse, AppError>)
    requires
        tokens_unique(old(sessions)@),
        now <= u64::MAX - SESSION_TTL_SECONDS,
    ensures
        tokens_unique(final(sessions)@),
        !password_ok ==> (r matches Err(AppError::BadRequest(m)) && m@ == "Invalid password"@)
            && final(sessions)@ == old(sessions)@,
        password_ok ==> r is Ok && {
            let resp = r->Ok_0;
            &&& resp.id == teacher.id
            &&& resp.role == teacher.role
            &&& resp.token@.len() == 36
            &&& final(sessions)@.contains(
                Session {
                    token: resp.token,
                    principal_id: teacher.id,
                    expires_at: (now + SESSION_TTL_SECONDS) as u64,
                },
            )
            &&& forall|i: int|
                0 <= i < final(sessions)@.len() && (#[trigger] final(sessions)@[i]).token@
                    != resp.token@ ==> old(sessions)@.contains(final(sessions)@[i])
            &&& forall|i: int|
                0 <= i < old(sessions)@.len() && (#[trigger] old(sessions)@[i]).token@
                    != resp.token@ ==> final(sessions)@.contains(old(sessions)@[i])
        },
{
    if !password_ok {
        return Err(AppError::BadRequest(String::from_str("Invalid password")));
    }
    let token = sessions.create_session(teacher.id, now);
    Ok(LoginResponse { token: token, role: teacher.role.clone(), id: teacher.id })
}

/// Revokes the presented session token: afterwards no session carries it,
/// every other session is kept, and the acknowledgement the transport
/// sends back is returned. Revoking an absent token is not an error.
pub fn logout(sessions: &mut RedisState, payload: &LogoutRequest) -> (r: String)
    requires
        tokens_unique(old(sessions)@),
    ensures
        tokens_unique(final(sessions)@),
        forall|i: int|
            0 <= i < final(sessions)@.len() ==> (#[trigger] final(sessions)@[i]).token@
                != payload.token@,
        forall|i: int|
            0 <= i < final(sessions)@.len() ==> old(sessions)@.contains(
                #[trigger] final(sessions)@[i],
            ),
        forall|i: int|
            0 <= i < old(sessions)@.len() && (#[trigger] old(sessions)@[i]).token@
                != payload.token@ ==> final(sessions)@.contains(old(sessions)@[i]),
        r@ == "Logged out"@,
{
    sessions.delete_session(&payload.token);
    String::from_str("Logged out")
}

/// The reserved role passes every allow-list, the empty list included; a
/// role that is neither the reserved one nor listed is denied; a role
/// literally on the list is admitted.
pub proof fn lemma_role_gate(role: Seq<char>, allow: Seq<String>)
    ensures
        spec_role_allows("admin"@, allow),
        role != "admin"@ && (forall|i: int| 0 <= i < allow.len() ==> (#[trigger] allow[i])@ != role)
            ==> !spec_role_allows(role, allow),
        (exists|i: int| 0 <= i < allow.len() && (#[trigger] allow[i])@ == role)
            ==> spec_role_allows(role, allow),
{
}

} // verus!

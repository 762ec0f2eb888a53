use vstd::prelude::*;
use crate::model::User;
use crate::store::{Database, has_name};

verus! {

/// Whether some stored user has exactly this name and this password.
pub open spec fn credentials_match(users: Map<u64, User>, name: Seq<char>, password: Seq<char>) -> bool {
    exists|k: u64| users.contains_key(k) && has_name(#[trigger] users[k], name)
        && users[k].password@ == password
}

/// Whether at most one stored user carries the name `name`.
pub open spec fn name_unique(users: Map<u64, User>, name: Seq<char>) -> bool {
    forall|a: u64, b: u64| users.contains_key(a) && users.contains_key(b)
        && has_name(#[trigger] users[a], name) && has_name(#[trigger] users[b], name) ==> a == b
}

/// The result of a login attempt. A failure does not tell an unknown
/// name from a wrong password.
#[derive(PartialEq, Eq, Structural, Clone, Copy, Debug)]
pub enum LoginOutcome {
    LoggedIn,
    InvalidCredentials,
}

/// Decides a login from the user found under the submitted name: it succeeds
/// only where a user was found and its password equals `password` exactly.
pub fn check_password(found: Option<&User>, password: &str) -> (r: LoginOutcome)
    ensures
        (r == LoginOutcome::LoggedIn) == (match found {
            Some(u) => u.password@ == password@,
            None => false,
        }),
{
    match found {
        Some(u) => {
            let given = password.to_owned();
            if u.password == given {
                LoginOutcome::LoggedIn
            } else {
                LoginOutcome::InvalidCredentials
            }
        },
        None => LoginOutcome::InvalidCredentials,
    }
}

/// Looks the user up by name and compares the stored password with the
/// submitted one, in clear.
pub fn login(db: &Database, username: &str, password: &str) -> (r: LoginOutcome)
    ensures
        r == LoginOutcome::LoggedIn ==> credentials_match(db.user_map(), username@, password@),
        !credentials_match(db.user_map(), username@, password@) ==> r == LoginOutcome::InvalidCredentials,
        name_unique(db.user_map(), username@) ==> ((r == LoginOutcome::LoggedIn) == credentials_match(
            db.user_map(),
            username@,
            password@,
        )),
{
    let found = db.get_user_by_name(username);
    check_password(found, password)
}

} // verus!

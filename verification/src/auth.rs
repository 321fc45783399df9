//! The credential check: a caller's supplied password against the stored
//! one.  Looking the stored password up is the storage layer's business;
//! the decision is made here.

use vstd::prelude::*;

use crate::AuthError;

verus! {

/// Accept exactly when the supplied password equals the stored one; the
/// check has no side effects.
pub fn check_password(stored: &str, supplied: &str) -> (r: Result<(), AuthError>)
    ensures
        r is Ok <==> stored@ == supplied@,
        r is Err ==> r == Err::<(), AuthError>(AuthError::WrongPassword),
{
    let a = stored.to_owned();
    let b = supplied.to_owned();
    if a == b {
        Ok(())
    } else {
        Err(AuthError::WrongPassword)
    }
}

} // verus!

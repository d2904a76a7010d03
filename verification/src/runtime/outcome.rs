//! What a session comes to.

use vstd::prelude::*;

verus! {

/// Why a session ended.
#[derive(Debug, PartialEq, Eq)]
pub enum RunError<E> {
    /// The application exited.
    AppExited(u32),
    Other(E),
}

/// The code with which the application exited, where that ended the session.
pub fn app_exit_code<E>(result: &Result<(), RunError<E>>) -> (code: Option<u32>)
    ensures
        code == (match *result {
            Err(RunError::AppExited(code)) => Some(code),
            _ => None,
        }),
{
    match result {
        Err(RunError::AppExited(code)) => Some(*code),
        _ => None,
    }
}

/// What a session comes to: an application that exited well is no error.
pub fn reconcile_run<E>(result: Result<(), RunError<E>>) -> (outcome: Result<(), RunError<E>>)
    ensures
        outcome == (if result == Err::<(), RunError<E>>(RunError::AppExited(0)) {
            Ok(())
        } else {
            result
        }),
{
    match app_exit_code(&result) {
        Some(0) => Ok(()),
        _ => result,
    }
}

} // verus!

use vstd::prelude::*;

verus! {

/// Errors of the library: every refusal is an invalid input, with a reason.
#[derive(Debug)]
pub enum AppError {
    InvalidInput(&'static str),
}

pub type AppResult<T> = Result<T, AppError>;

impl AppError {
    /// The reason given for the refusal.
    pub fn message(&self) -> (m: &'static str)
        ensures
            m == match self {
                AppError::InvalidInput(s) => *s,
            },
    {
        match self {
            AppError::InvalidInput(s) => *s,
        }
    }
}

/// `Ok` exactly when `condition` holds, otherwise the given refusal.
pub fn require(condition: bool, message: &'static str) -> (r: AppResult<()>)
    ensures
        condition ==> r is Ok,
        !condition ==> r == Err::<(), AppError>(AppError::InvalidInput(message)),
{
    if condition {
        Ok(())
    } else {
        Err(AppError::InvalidInput(message))
    }
}

} // verus!

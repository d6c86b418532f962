use vstd::prelude::*;

verus! {

/// The closed set of failure kinds that the game operations report.
///
/// Human-readable text for each kind is rendered at the transport boundary,
/// not here; the kind alone carries the meaning:
/// - `NotFound`: the referenced game or target does not exist;
/// - `Unauthorized`: a credential does not resolve to a player;
/// - `Forbidden`: authenticated but not permitted (dead actor, wrong target,
///   non-host start, rejoining after elimination, ...);
/// - `UnprocessableEntity`: the request is well formed but violates a
///   game-state precondition (wrong phase, too few players, bad secret form);
/// - `InternalServerError`: the store itself failed (exhausted identifiers).
#[derive(Clone, Copy, Debug, PartialEq, Eq, Structural)]
pub enum AppError {
    InternalServerError,
    Unauthorized,
    Forbidden,
    NotFound,
    UnprocessableEntity,
}

impl AppError {
    /// The HTTP status code that each error kind maps to.
    pub open spec fn spec_status_code(&self) -> u16 {
        match self {
            AppError::InternalServerError => 500,
            AppError::Unauthorized => 401,
            AppError::Forbidden => 403,
            AppError::NotFound => 404,
            AppError::UnprocessableEntity => 422,
        }
    }

    /// The HTTP status code for this error kind.
    #[verifier::when_used_as_spec(spec_status_code)]
    pub fn status_code(&self) -> (r: u16)
        ensures
            r == self.spec_status_code(),
    {
        match self {
            AppError::InternalServerError => 500,
            AppError::Unauthorized => 401,
            AppError::Forbidden => 403,
            AppError::NotFound => 404,
            AppError::UnprocessableEntity => 422,
        }
    }
}

} // verus!

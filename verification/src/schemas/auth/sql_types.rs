//! The custom SQL types of the `auth` schema.
use vstd::prelude::*;

verus! {

/// The `auth.aal_level` type.
#[derive(Clone, Copy)]
pub struct AalLevel;

/// The `auth.code_challenge_method` type.
#[derive(Clone, Copy)]
pub struct CodeChallengeMethod;

/// The `auth.factor_status` type.
#[derive(Clone, Copy)]
pub struct FactorStatus;

/// The `auth.factor_type` type.
#[derive(Clone, Copy)]
pub struct FactorType;

/// The `auth.one_time_token_type` type.
#[derive(Clone, Copy)]
pub struct OneTimeTokenType;

} // verus!

//! The error kinds an operation can fail with.

use vstd::prelude::*;

verus! {

use crate::utils::{CityName, Nickname};

/// Everything that can go wrong in an operation of the registry.
///
/// Every operation checks its preconditions before its first write, so a call
/// that returns one of these has left the registry unchanged.
#[derive(Debug)]
pub enum ContractError {
    /// The referenced record does not exist; `kind` names what was looked for.
    NotFound { kind: String },

    /// Inconsistent input data provided.
    InconsistentData {},

    /// The caller is not the maintainer.
    Unauthorized {},

    /// The caller is already the maintainer.
    AlreadyMaintainer {},

    /// The caller does not satisfy the maintainer requirements.
    InconsistentMaintainer { requirement: String },

    /// A person with this address already exists.
    PersonAlreadyRegistered { nickname: Nickname },

    /// The person is already registered in the city.
    PersonAlreadyRegisteredInCity { nickname: Nickname, city_name: CityName },
}

} // verus!

//! The messages the registry accepts and the responses it returns.

use vstd::prelude::*;

verus! {

use crate::utils::{Birthday, CityName, CityResponse, Email, Nickname, PersonResponse};

/// Message creating a fresh registry.
#[derive(Clone, Debug, PartialEq, Eq, Structural)]
pub struct InstantiateMsg {}

/// A state-changing request.
#[derive(Clone, Debug, PartialEq)]
pub enum ExecuteMsg {
    RegisterCity { name: CityName, power_level: u8 },
    RegisterPerson { birthday: Birthday, nickname: Nickname, email: Option<Email> },
    UpdatePerson { nickname: Nickname, email: Option<Email> },

    RegisterInCity { city_id: u64 },
    UnregisterFromCity { city_id: u64 },

    BecomeMaintainer {},
}

/// A read-only request.
#[derive(Clone, Debug, PartialEq)]
pub enum QueryMsg {
    LookMaintainer {},

    LookPerson { person: Vec<u8> },
    LookCities { start_id: u64, limit: u64 },

    LookPersonCities { person: Vec<u8>, start_id: u64, limit: u64 },
    LookCityPeople { city: u64, start_id: u64, limit: u64 },
}

/// The answer to a [`QueryMsg`].
#[derive(Clone, Debug, PartialEq)]
pub enum ResponseMsg {
    LookMaintainer { maintainer: Vec<u8> },

    LookPerson { person: PersonResponse },
    LookCities { cities: Vec<CityResponse> },

    LookPersonCities { cities: Vec<CityResponse> },
    LookCityPeople { people: Vec<PersonResponse> },
}

} // verus!

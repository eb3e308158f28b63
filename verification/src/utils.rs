//! The record types held by the registry, and their mathematical views.

use vstd::prelude::*;

verus! {

/// A person's date of birth, used for age checks.
#[derive(Clone, Copy, Debug, PartialEq, Eq, Structural)]
pub struct Birthday {
    /// Day of the year; optional, in `[1, 366]` when present.
    pub day: Option<u16>,

    /// Year of birth, in `[1756, current year]`.
    pub year: u16,
}

pub type CityName = String;

pub type Nickname = String;

pub type Email = String;

/// The single global configuration record: the current maintainer and the
/// counter handing out dense city ids.
#[derive(Clone, Debug, PartialEq)]
pub struct Config {
    /// Identity of the current maintainer (an opaque byte-string key).
    pub maintainer: Vec<u8>,

    /// Number of cities registered so far; also the next fresh city id.
    pub cities_count: u64,
}

/// A city record.
#[derive(Clone, Debug, PartialEq)]
pub struct City {
    pub city_name: CityName,
    pub power_level: u8,

    /// Number of persons currently registered in this city.
    pub members_count: u64,
}

/// A city as it is reported by queries.
#[derive(Clone, Debug, PartialEq)]
pub struct CityResponse {
    pub id: u64,
    pub name: CityName,
    pub power_level: u8,
    pub population: u64,
}

/// A person record.
#[derive(Clone, Debug, PartialEq)]
pub struct Person {
    pub birthday: Birthday,
    pub nickname: Nickname,
    /// A person may withhold the email address.
    pub email: Option<Email>,

    /// Number of cities this person is currently registered in.
    pub cities_count: u64,
}

/// A person as it is reported by queries.
#[derive(Clone, Debug, PartialEq)]
pub struct PersonResponse {
    /// Identity of the person (an opaque byte-string key).
    pub address: Vec<u8>,
    pub birthday: Birthday,
    pub nickname: Nickname,
    pub email: Option<Email>,
    pub resident_times: u64,
}

/// Mathematical value of a [`Config`].
#[verifier::ext_equal]
pub ghost struct ConfigView {
    pub maintainer: Seq<u8>,
    pub cities_count: u64,
}

impl View for Config {
    type V = ConfigView;

    open spec fn view(&self) -> ConfigView {
        ConfigView { maintainer: self.maintainer@, cities_count: self.cities_count }
    }
}

/// Mathematical value of a [`City`].
#[verifier::ext_equal]
pub ghost struct CityView {
    pub city_name: Seq<char>,
    pub power_level: u8,
    pub members_count: u64,
}

impl View for City {
    type V = CityView;

    open spec fn view(&self) -> CityView {
        CityView {
            city_name: self.city_name@,
            power_level: self.power_level,
            members_count: self.members_count,
        }
    }
}

/// Mathematical value of an optional string.
pub open spec fn opt_string_view(e: Option<String>) -> Option<Seq<char>> {
    match e {
        Some(s) => Some(s@),
        None => None,
    }
}

/// Mathematical value of a [`Person`].
#[verifier::ext_equal]
pub ghost struct PersonView {
    pub birthday: Birthday,
    pub nickname: Seq<char>,
    pub email: Option<Seq<char>>,
    pub cities_count: u64,
}

impl View for Person {
    type V = PersonView;

    open spec fn view(&self) -> PersonView {
        PersonView {
            birthday: self.birthday,
            nickname: self.nickname@,
            email: opt_string_view(self.email),
            cities_count: self.cities_count,
        }
    }
}

} // verus!

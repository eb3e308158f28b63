use city_registry::contract::{execute, instantiate, query};
use city_registry::msg::{ExecuteMsg, InstantiateMsg, QueryMsg, ResponseMsg};
use city_registry::utils::{Birthday, CityResponse, PersonResponse};

const YEAR_IN_SECONDS: u64 = 31556952;

fn addr(s: &str) -> Vec<u8> {
    s.as_bytes().to_vec()
}

#[test]
fn contract_initialization() {
    let reg = instantiate(addr("creator"), InstantiateMsg {});

    let maintainer = query(&reg, QueryMsg::LookMaintainer {}).unwrap();
    assert_eq!(maintainer, ResponseMsg::LookMaintainer { maintainer: addr("creator") });
}

#[test]
fn maintainer_takeover() {
    let now = YEAR_IN_SECONDS * 52 + YEAR_IN_SECONDS / 2; // in middle of 2022
    let mut reg = instantiate(addr("creator"), InstantiateMsg {});

    execute(
        &mut reg,
        now,
        addr("user_1"),
        ExecuteMsg::RegisterPerson {
            birthday: Birthday { day: None, year: 2015 },
            nickname: "super_user".to_string(),
            email: None,
        },
    )
    .unwrap();
    execute(
        &mut reg,
        now,
        addr("user_2"),
        ExecuteMsg::RegisterPerson {
            birthday: Birthday { day: None, year: 2000 },
            nickname: "super_user".to_string(),
            email: None,
        },
    )
    .unwrap();
    execute(
        &mut reg,
        now,
        addr("user_3"),
        ExecuteMsg::RegisterPerson {
            birthday: Birthday { day: None, year: 2015 },
            nickname: "Super_Maintainer_887".to_string(),
            email: None,
        },
    )
    .unwrap();
    execute(
        &mut reg,
        now,
        addr("user_4"),
        ExecuteMsg::RegisterPerson {
            birthday: Birthday { day: None, year: 2004 },
            nickname: "Super_Maintainer_887".to_string(),
            email: None,
        },
    )
    .unwrap();

    let bad_takeover = execute(&mut reg, now, addr("creator"), ExecuteMsg::BecomeMaintainer {});
    assert!(bad_takeover.is_err());

    let bad_takeover = execute(&mut reg, now, addr("user_1"), ExecuteMsg::BecomeMaintainer {});
    assert!(bad_takeover.is_err());

    let bad_takeover = execute(&mut reg, now, addr("user_2"), ExecuteMsg::BecomeMaintainer {});
    assert!(bad_takeover.is_err());

    let bad_takeover = execute(&mut reg, now, addr("user_3"), ExecuteMsg::BecomeMaintainer {});
    assert!(bad_takeover.is_err());

    execute(&mut reg, now, addr("user_4"), ExecuteMsg::BecomeMaintainer {}).unwrap();

    let maintainer = query(&reg, QueryMsg::LookMaintainer {}).unwrap();
    assert_eq!(maintainer, ResponseMsg::LookMaintainer { maintainer: addr("user_4") });
}

#[test]
fn city_creation() {
    let now = 1571797419;
    let mut reg = instantiate(addr("creator"), InstantiateMsg {});

    execute(
        &mut reg,
        now,
        addr("creator"),
        ExecuteMsg::RegisterCity { name: "Super City".to_string(), power_level: 5 },
    )
    .unwrap();

    let bad_city_creation = execute(
        &mut reg,
        now,
        addr("mad"),
        ExecuteMsg::RegisterCity { name: "Mad City".to_string(), power_level: 7 },
    );
    assert!(bad_city_creation.is_err());

    execute(
        &mut reg,
        now,
        addr("creator"),
        ExecuteMsg::RegisterCity { name: "Secret City".to_string(), power_level: 3 },
    )
    .unwrap();

    let cities = query(&reg, QueryMsg::LookCities { start_id: 0, limit: 10 }).unwrap();
    assert_eq!(
        cities,
        ResponseMsg::LookCities {
            cities: [
                CityResponse {
                    id: 0,
                    name: "Super City".to_string(),
                    power_level: 5,
                    population: 0
                },
                CityResponse {
                    id: 1,
                    name: "Secret City".to_string(),
                    power_level: 3,
                    population: 0
                },
            ]
            .to_vec()
        }
    );
}

#[test]
fn person_registration() {
    let now = YEAR_IN_SECONDS * 52 + YEAR_IN_SECONDS / 2; // in middle of 2022
    let mut reg = instantiate(addr("creator"), InstantiateMsg {});

    let bad_person_registration = execute(
        &mut reg,
        now,
        addr("user"),
        ExecuteMsg::RegisterPerson {
            birthday: Birthday { day: None, year: 1755 },
            nickname: "super_user".to_string(),
            email: None,
        },
    );
    assert!(bad_person_registration.is_err());

    let bad_person_registration = execute(
        &mut reg,
        now,
        addr("user"),
        ExecuteMsg::RegisterPerson {
            birthday: Birthday { day: None, year: 2023 },
            nickname: "super_user".to_string(),
            email: None,
        },
    );
    assert!(bad_person_registration.is_err());

    let bad_person_registration = execute(
        &mut reg,
        now,
        addr("user"),
        ExecuteMsg::RegisterPerson {
            birthday: Birthday { day: Some(0), year: 2000 },
            nickname: "super_user".to_string(),
            email: None,
        },
    );
    assert!(bad_person_registration.is_err());

    let bad_person_registration = execute(
        &mut reg,
        now,
        addr("user"),
        ExecuteMsg::RegisterPerson {
            birthday: Birthday { day: Some(367), year: 2000 },
            nickname: "super_user".to_string(),
            email: None,
        },
    );
    assert!(bad_person_registration.is_err());

    let mock_now = 1571797419;
    execute(
        &mut reg,
        mock_now,
        addr("user_1"),
        ExecuteMsg::RegisterPerson {
            birthday: Birthday { day: None, year: 2000 },
            nickname: "super_user_1".to_string(),
            email: None,
        },
    )
    .unwrap();

    let bad_person_registration = execute(
        &mut reg,
        mock_now,
        addr("user_1"),
        ExecuteMsg::RegisterPerson {
            birthday: Birthday { day: None, year: 2000 },
            nickname: "super_user_1".to_string(),
            email: None,
        },
    );
    assert!(bad_person_registration.is_err());

    execute(
        &mut reg,
        mock_now,
        addr("user_2"),
        ExecuteMsg::RegisterPerson {
            birthday: Birthday { day: None, year: 2009 },
            nickname: "super_user_2".to_string(),
            email: None,
        },
    )
    .unwrap();
}

#[test]
fn person_updation() {
    let now = 1571797419;
    let mut reg = instantiate(addr("creator"), InstantiateMsg {});

    let bad_person_updation = execute(
        &mut reg,
        now,
        addr("user"),
        ExecuteMsg::UpdatePerson { nickname: "super_user_1".to_string(), email: None },
    );
    assert!(bad_person_updation.is_err());

    execute(
        &mut reg,
        now,
        addr("user"),
        ExecuteMsg::RegisterPerson {
            birthday: Birthday { day: None, year: 2000 },
            nickname: "super_user".to_string(),
            email: None,
        },
    )
    .unwrap();

    let person = query(&reg, QueryMsg::LookPerson { person: addr("user") }).unwrap();
    assert_eq!(
        person,
        ResponseMsg::LookPerson {
            person: PersonResponse {
                address: addr("user"),
                birthday: Birthday { day: None, year: 2000 },
                nickname: "super_user".to_string(),
                email: None,
                resident_times: 0
            }
        }
    );

    execute(
        &mut reg,
        now,
        addr("user"),
        ExecuteMsg::UpdatePerson {
            nickname: "super_puper_user".to_string(),
            email: Some("user@user.io".to_string()),
        },
    )
    .unwrap();

    let person = query(&reg, QueryMsg::LookPerson { person: addr("user") }).unwrap();
    assert_eq!(
        person,
        ResponseMsg::LookPerson {
            person: PersonResponse {
                address: addr("user"),
                birthday: Birthday { day: None, year: 2000 },
                nickname: "super_puper_user".to_string(),
                email: Some("user@user.io".to_string()),
                resident_times: 0
            }
        }
    );
}

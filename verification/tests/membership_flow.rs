use city_registry::contract::{execute, instantiate, query};
use city_registry::msg::{ExecuteMsg, InstantiateMsg, QueryMsg, ResponseMsg};
use city_registry::utils::{Birthday, CityResponse, PersonResponse};

const YEAR_IN_SECONDS: u64 = 31556952;

fn addr(s: &str) -> Vec<u8> {
    s.as_bytes().to_vec()
}

fn register_city(reg: &mut city_registry::state::Registry, now: u64, name: &str, power_level: u8) {
    execute(
        reg,
        now,
        addr("creator"),
        ExecuteMsg::RegisterCity { name: name.to_string(), power_level },
    )
    .unwrap();
}

fn register_person(reg: &mut city_registry::state::Registry, now: u64, who: &str, year: u16, nickname: &str) {
    execute(
        reg,
        now,
        addr(who),
        ExecuteMsg::RegisterPerson {
            birthday: Birthday { day: None, year },
            nickname: nickname.to_string(),
            email: None,
        },
    )
    .unwrap();
}

fn person_response(who: &str, year: u16, nickname: &str, resident_times: u64) -> PersonResponse {
    PersonResponse {
        address: addr(who),
        birthday: Birthday { day: None, year },
        nickname: nickname.to_string(),
        email: None,
        resident_times,
    }
}

#[test]
fn contract_person_in_city_registration() {
    let now = 1571797419;
    let mut reg = instantiate(addr("creator"), InstantiateMsg {});
    register_city(&mut reg, now, "Super City", 3);
    register_city(&mut reg, now, "Secret City", 3);

    register_person(&mut reg, now, "user_1", 2000, "super_user_1");
    register_person(&mut reg, now, "user_2", 2009, "super_user_2");

    execute(&mut reg, now, addr("user_1"), ExecuteMsg::RegisterInCity { city_id: 0 }).unwrap();

    let bad_registring_in_city =
        execute(&mut reg, now, addr("user"), ExecuteMsg::RegisterInCity { city_id: 0 });
    assert!(bad_registring_in_city.is_err());

    execute(&mut reg, now, addr("user_2"), ExecuteMsg::RegisterInCity { city_id: 0 }).unwrap();
    execute(&mut reg, now, addr("user_2"), ExecuteMsg::RegisterInCity { city_id: 1 }).unwrap();

    let city_people =
        query(&reg, QueryMsg::LookCityPeople { city: 0, start_id: 0, limit: 10 }).unwrap();
    assert_eq!(
        city_people,
        ResponseMsg::LookCityPeople {
            people: [
                person_response("user_1", 2000, "super_user_1", 1),
                person_response("user_2", 2009, "super_user_2", 2),
            ]
            .to_vec()
        }
    );

    let city_people =
        query(&reg, QueryMsg::LookCityPeople { city: 1, start_id: 0, limit: 10 }).unwrap();
    assert_eq!(
        city_people,
        ResponseMsg::LookCityPeople {
            people: [person_response("user_2", 2009, "super_user_2", 2)].to_vec()
        }
    );

    let person_cities = query(
        &reg,
        QueryMsg::LookPersonCities { person: addr("user_1"), start_id: 0, limit: 10 },
    )
    .unwrap();
    assert_eq!(
        person_cities,
        ResponseMsg::LookPersonCities {
            cities: [CityResponse {
                id: 0,
                name: "Super City".to_string(),
                power_level: 3,
                population: 2
            }]
            .to_vec()
        }
    );

    let person_cities = query(
        &reg,
        QueryMsg::LookPersonCities { person: addr("user_2"), start_id: 0, limit: 10 },
    )
    .unwrap();
    assert_eq!(
        person_cities,
        ResponseMsg::LookPersonCities {
            cities: [
                CityResponse {
                    id: 0,
                    name: "Super City".to_string(),
                    power_level: 3,
                    population: 2
                },
                CityResponse {
                    id: 1,
                    name: "Secret City".to_string(),
                    power_level: 3,
                    population: 1
                },
            ]
            .to_vec()
        }
    );

    let bad_registring_in_city =
        execute(&mut reg, now, addr("user_1"), ExecuteMsg::RegisterInCity { city_id: 0 });
    assert!(bad_registring_in_city.is_err());

    execute(&mut reg, now, addr("user_1"), ExecuteMsg::UnregisterFromCity { city_id: 0 }).unwrap();
    execute(&mut reg, now, addr("user_1"), ExecuteMsg::RegisterInCity { city_id: 0 }).unwrap();

    let city_people =
        query(&reg, QueryMsg::LookCityPeople { city: 0, start_id: 0, limit: 10 }).unwrap();
    assert_eq!(
        city_people,
        ResponseMsg::LookCityPeople {
            people: [
                person_response("user_2", 2009, "super_user_2", 2),
                person_response("user_1", 2000, "super_user_1", 1),
            ]
            .to_vec()
        }
    );

    let city_people =
        query(&reg, QueryMsg::LookCityPeople { city: 1, start_id: 0, limit: 10 }).unwrap();
    assert_eq!(
        city_people,
        ResponseMsg::LookCityPeople {
            people: [person_response("user_2", 2009, "super_user_2", 2)].to_vec()
        }
    );

    let person_cities = query(
        &reg,
        QueryMsg::LookPersonCities { person: addr("user_1"), start_id: 0, limit: 10 },
    )
    .unwrap();
    assert_eq!(
        person_cities,
        ResponseMsg::LookPersonCities {
            cities: [CityResponse {
                id: 0,
                name: "Super City".to_string(),
                power_level: 3,
                population: 2
            }]
            .to_vec()
        }
    );

    let person_cities = query(
        &reg,
        QueryMsg::LookPersonCities { person: addr("user_2"), start_id: 0, limit: 10 },
    )
    .unwrap();
    assert_eq!(
        person_cities,
        ResponseMsg::LookPersonCities {
            cities: [
                CityResponse {
                    id: 0,
                    name: "Super City".to_string(),
                    power_level: 3,
                    population: 2
                },
                CityResponse {
                    id: 1,
                    name: "Secret City".to_string(),
                    power_level: 3,
                    population: 1
                },
            ]
            .to_vec()
        }
    );

    execute(&mut reg, now, addr("user_2"), ExecuteMsg::UnregisterFromCity { city_id: 1 }).unwrap();

    let city_people =
        query(&reg, QueryMsg::LookCityPeople { city: 0, start_id: 0, limit: 10 }).unwrap();
    assert_eq!(
        city_people,
        ResponseMsg::LookCityPeople {
            people: [
                person_response("user_2", 2009, "super_user_2", 1),
                person_response("user_1", 2000, "super_user_1", 1),
            ]
            .to_vec()
        }
    );

    let city_people =
        query(&reg, QueryMsg::LookCityPeople { city: 1, start_id: 0, limit: 10 }).unwrap();
    assert_eq!(city_people, ResponseMsg::LookCityPeople { people: [].to_vec() });

    let person_cities = query(
        &reg,
        QueryMsg::LookPersonCities { person: addr("user_1"), start_id: 0, limit: 10 },
    )
    .unwrap();
    assert_eq!(
        person_cities,
        ResponseMsg::LookPersonCities {
            cities: [CityResponse {
                id: 0,
                name: "Super City".to_string(),
                power_level: 3,
                population: 2
            }]
            .to_vec()
        }
    );

    let person_cities = query(
        &reg,
        QueryMsg::LookPersonCities { person: addr("user_2"), start_id: 0, limit: 10 },
    )
    .unwrap();
    assert_eq!(
        person_cities,
        ResponseMsg::LookPersonCities {
            cities: [CityResponse {
                id: 0,
                name: "Super City".to_string(),
                power_level: 3,
                population: 2
            }]
            .to_vec()
        }
    );

    let bad_upregistring_from_city =
        execute(&mut reg, now, addr("user_2"), ExecuteMsg::UnregisterFromCity { city_id: 1 });
    assert!(bad_upregistring_from_city.is_err());

    let bad_upregistring_from_city =
        execute(&mut reg, now, addr("user_2"), ExecuteMsg::UnregisterFromCity { city_id: 2 });
    assert!(bad_upregistring_from_city.is_err());

    let bad_registring_in_city =
        execute(&mut reg, now, addr("user_1"), ExecuteMsg::RegisterInCity { city_id: 3 });
    assert!(bad_registring_in_city.is_err());

    execute(&mut reg, now, addr("user_1"), ExecuteMsg::RegisterInCity { city_id: 1 }).unwrap();
    execute(&mut reg, now, addr("user_1"), ExecuteMsg::UnregisterFromCity { city_id: 0 }).unwrap();
    execute(&mut reg, now, addr("user_1"), ExecuteMsg::UnregisterFromCity { city_id: 1 }).unwrap();

    let city_people =
        query(&reg, QueryMsg::LookCityPeople { city: 0, start_id: 0, limit: 10 }).unwrap();
    assert_eq!(
        city_people,
        ResponseMsg::LookCityPeople {
            people: [person_response("user_2", 2009, "super_user_2", 1)].to_vec()
        }
    );

    let city_people =
        query(&reg, QueryMsg::LookCityPeople { city: 1, start_id: 0, limit: 10 }).unwrap();
    assert_eq!(city_people, ResponseMsg::LookCityPeople { people: [].to_vec() });

    let person_cities = query(
        &reg,
        QueryMsg::LookPersonCities { person: addr("user_1"), start_id: 0, limit: 10 },
    )
    .unwrap();
    assert_eq!(person_cities, ResponseMsg::LookPersonCities { cities: [].to_vec() });

    let person_cities = query(
        &reg,
        QueryMsg::LookPersonCities { person: addr("user_2"), start_id: 0, limit: 10 },
    )
    .unwrap();
    assert_eq!(
        person_cities,
        ResponseMsg::LookPersonCities {
            cities: [CityResponse {
                id: 0,
                name: "Super City".to_string(),
                power_level: 3,
                population: 1
            }]
            .to_vec()
        }
    );

    let cities = query(&reg, QueryMsg::LookCities { start_id: 0, limit: 10 }).unwrap();
    assert_eq!(
        cities,
        ResponseMsg::LookCities {
            cities: [
                CityResponse {
                    id: 0,
                    name: "Super City".to_string(),
                    power_level: 3,
                    population: 1
                },
                CityResponse {
                    id: 1,
                    name: "Secret City".to_string(),
                    power_level: 3,
                    population: 0
                },
            ]
            .to_vec()
        }
    );

    let person = query(&reg, QueryMsg::LookPerson { person: addr("user_2") }).unwrap();
    assert_eq!(
        person,
        ResponseMsg::LookPerson { person: person_response("user_2", 2009, "super_user_2", 1) }
    );
}

#[test]
fn integration_initialization() {
    let reg = instantiate(addr("creator"), InstantiateMsg {});

    let maintainer = query(&reg, QueryMsg::LookMaintainer {}).unwrap();
    assert_eq!(maintainer, ResponseMsg::LookMaintainer { maintainer: addr("creator") });
}

#[test]
fn integration_person_in_city_registration() {
    let now = YEAR_IN_SECONDS * 52 + YEAR_IN_SECONDS / 2; // in middle of 2022
    let mut reg = instantiate(addr("creator"), InstantiateMsg {});

    register_city(&mut reg, now, "Super City", 3);
    register_city(&mut reg, now, "Secret City", 3);

    register_person(&mut reg, now, "user_2", 2000, "super_user_2");
    register_person(&mut reg, now, "user_3", 2009, "super_user_3");

    execute(&mut reg, now, addr("user_2"), ExecuteMsg::RegisterInCity { city_id: 0 }).unwrap();
    execute(&mut reg, now, addr("user_3"), ExecuteMsg::RegisterInCity { city_id: 0 }).unwrap();
    execute(&mut reg, now, addr("user_3"), ExecuteMsg::RegisterInCity { city_id: 1 }).unwrap();

    let city_people =
        query(&reg, QueryMsg::LookCityPeople { city: 0, start_id: 0, limit: 10 }).unwrap();
    assert_eq!(
        city_people,
        ResponseMsg::LookCityPeople {
            people: [
                person_response("user_2", 2000, "super_user_2", 1),
                person_response("user_3", 2009, "super_user_3", 2),
            ]
            .to_vec()
        }
    );

    let city_people =
        query(&reg, QueryMsg::LookCityPeople { city: 1, start_id: 0, limit: 10 }).unwrap();
    assert_eq!(
        city_people,
        ResponseMsg::LookCityPeople {
            people: [person_response("user_3", 2009, "super_user_3", 2)].to_vec()
        }
    );

    let person_cities = query(
        &reg,
        QueryMsg::LookPersonCities { person: addr("user_2"), start_id: 0, limit: 10 },
    )
    .unwrap();
    assert_eq!(
        person_cities,
        ResponseMsg::LookPersonCities {
            cities: [CityResponse {
                id: 0,
                name: "Super City".to_string(),
                power_level: 3,
                population: 2
            }]
            .to_vec()
        }
    );

    let person_cities = query(
        &reg,
        QueryMsg::LookPersonCities { person: addr("user_3"), start_id: 0, limit: 10 },
    )
    .unwrap();
    assert_eq!(
        person_cities,
        ResponseMsg::LookPersonCities {
            cities: [
                CityResponse {
                    id: 0,
                    name: "Super City".to_string(),
                    power_level: 3,
                    population: 2
                },
                CityResponse {
                    id: 1,
                    name: "Secret City".to_string(),
                    power_level: 3,
                    population: 1
                },
            ]
            .to_vec()
        }
    );
}

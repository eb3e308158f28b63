use city_registry::contract::instantiate;
use city_registry::error::ContractError;
use city_registry::msg::InstantiateMsg;
use city_registry::state::{
    bytes_eq, create_city, create_person, get_city, get_city_id_by_person, get_person,
    get_person_address_by_city, get_storage, register_in_city, set_storage, unregister_from_city,
};
use city_registry::utils::{Birthday, City, Config, Person};

fn addr(s: &str) -> Vec<u8> {
    s.as_bytes().to_vec()
}

#[test]
fn storage_roundtrip_and_direct_lookups() {
    let mut reg = instantiate(addr("creator"), InstantiateMsg {});

    let config = get_storage(&reg).unwrap();
    assert_eq!(config.maintainer, addr("creator"));
    assert_eq!(config.cities_count, 0);

    create_city(&mut reg, "Super City".to_string(), 5).unwrap();
    create_city(&mut reg, "Secret City".to_string(), 3).unwrap();
    assert_eq!(get_storage(&reg).unwrap().cities_count, 2);

    set_storage(&mut reg, &Config { maintainer: addr("other"), cities_count: 2 }).unwrap();
    assert_eq!(get_storage(&reg).unwrap().maintainer, addr("other"));

    assert_eq!(
        get_city(&reg, 1).unwrap(),
        City { city_name: "Secret City".to_string(), power_level: 3, members_count: 0 }
    );
    assert!(matches!(get_city(&reg, 2), Err(ContractError::NotFound { kind }) if kind == "City"));

    create_person(
        &mut reg,
        addr("resident"),
        Birthday { day: Some(17), year: 1999 },
        "resident_1".to_string(),
        Some("resident@city.io".to_string()),
    )
    .unwrap();
    assert_eq!(
        get_person(&reg, &addr("resident")).unwrap(),
        Person {
            birthday: Birthday { day: Some(17), year: 1999 },
            nickname: "resident_1".to_string(),
            email: Some("resident@city.io".to_string()),
            cities_count: 0,
        }
    );
    assert!(
        matches!(get_person(&reg, &addr("ghost")), Err(ContractError::NotFound { kind }) if kind == "Person")
    );

    register_in_city(&mut reg, addr("resident"), 1).unwrap();
    assert_eq!(get_city_id_by_person(&reg, &addr("resident"), 0).unwrap(), 1);
    assert!(
        matches!(get_city_id_by_person(&reg, &addr("resident"), 1), Err(ContractError::NotFound { kind }) if kind == "CityId")
    );
    assert_eq!(get_person_address_by_city(&reg, 1, 0).unwrap(), addr("resident"));
    assert!(
        matches!(get_person_address_by_city(&reg, 1, 1), Err(ContractError::NotFound { kind }) if kind == "PersonAddress")
    );
    assert_eq!(get_city(&reg, 1).unwrap().members_count, 1);

    unregister_from_city(&mut reg, addr("resident"), 1).unwrap();
    assert_eq!(get_city(&reg, 1).unwrap().members_count, 0);
    assert_eq!(get_person(&reg, &addr("resident")).unwrap().cities_count, 0);

    assert!(bytes_eq(&addr("resident"), &addr("resident")));
    assert!(!bytes_eq(&addr("resident"), &addr("other")));
}

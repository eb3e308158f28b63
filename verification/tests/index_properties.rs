use city_registry::contract::{execute, instantiate, query};
use city_registry::error::ContractError;
use city_registry::msg::{ExecuteMsg, InstantiateMsg, QueryMsg, ResponseMsg};
use city_registry::utils::Birthday;

fn addr(s: &str) -> Vec<u8> {
    s.as_bytes().to_vec()
}

fn setup(now: u64, cities: &[&str], persons: &[&str]) -> city_registry::state::Registry {
    let mut reg = instantiate(addr("creator"), InstantiateMsg {});
    for name in cities {
        execute(
            &mut reg,
            now,
            addr("creator"),
            ExecuteMsg::RegisterCity { name: name.to_string(), power_level: 1 },
        )
        .unwrap();
    }
    for who in persons {
        execute(
            &mut reg,
            now,
            addr(who),
            ExecuteMsg::RegisterPerson {
                birthday: Birthday { day: None, year: 2000 },
                nickname: who.to_string(),
                email: None,
            },
        )
        .unwrap();
    }
    reg
}

fn join(reg: &mut city_registry::state::Registry, who: &str, city_id: u64) {
    execute(reg, 1571797419, addr(who), ExecuteMsg::RegisterInCity { city_id }).unwrap();
}

fn leave(reg: &mut city_registry::state::Registry, who: &str, city_id: u64) {
    execute(reg, 1571797419, addr(who), ExecuteMsg::UnregisterFromCity { city_id }).unwrap();
}

fn people_of(reg: &city_registry::state::Registry, city: u64, start: u64, limit: u64) -> Vec<Vec<u8>> {
    match query(reg, QueryMsg::LookCityPeople { city, start_id: start, limit }).unwrap() {
        ResponseMsg::LookCityPeople { people } => people.into_iter().map(|p| p.address).collect(),
        other => panic!("unexpected response {:?}", other),
    }
}

fn cities_of(reg: &city_registry::state::Registry, who: &str, start: u64, limit: u64) -> Vec<u64> {
    match query(
        reg,
        QueryMsg::LookPersonCities { person: addr(who), start_id: start, limit },
    )
    .unwrap()
    {
        ResponseMsg::LookPersonCities { cities } => cities.into_iter().map(|c| c.id).collect(),
        other => panic!("unexpected response {:?}", other),
    }
}

fn population_of(reg: &city_registry::state::Registry, city: u64) -> u64 {
    match query(reg, QueryMsg::LookCities { start_id: city, limit: 1 }).unwrap() {
        ResponseMsg::LookCities { cities } => cities[0].population,
        other => panic!("unexpected response {:?}", other),
    }
}

#[test]
fn swap_compaction_moves_last_member_into_freed_slot() {
    let now = 1571797419;
    let mut reg = setup(now, &["g0"], &["p1", "p2"]);
    join(&mut reg, "p1", 0);
    join(&mut reg, "p2", 0);
    assert_eq!(people_of(&reg, 0, 0, 10), vec![addr("p1"), addr("p2")]);

    leave(&mut reg, "p1", 0);

    assert_eq!(population_of(&reg, 0), 1);
    assert_eq!(people_of(&reg, 0, 0, 10), vec![addr("p2")]);
}

#[test]
fn moved_entry_removal_keeps_cross_references_consistent() {
    let now = 1571797419;
    let mut reg = setup(now, &["g0", "g1"], &["p1", "p2"]);
    // p2 belongs to g0 and g1 (reverse positions 0 and 1); g0 holds p1 and
    // p2 (forward positions 0 and 1).
    join(&mut reg, "p1", 0);
    join(&mut reg, "p2", 0);
    join(&mut reg, "p2", 1);
    assert_eq!(people_of(&reg, 0, 0, 10), vec![addr("p1"), addr("p2")]);
    assert_eq!(cities_of(&reg, "p2", 0, 10), vec![0, 1]);

    // Removing (p1, g0) moves p2 into forward position 0 of g0.
    leave(&mut reg, "p1", 0);
    assert_eq!(people_of(&reg, 0, 0, 10), vec![addr("p2")]);

    // Removing (p2, g1) must not disturb p2's remaining relation to g0.
    leave(&mut reg, "p2", 1);
    assert_eq!(cities_of(&reg, "p2", 0, 10), vec![0]);
    assert_eq!(people_of(&reg, 0, 0, 10), vec![addr("p2")]);
}

#[test]
fn pagination_bounds() {
    let now = 1571797419;
    let mut reg = setup(now, &["g0"], &["p1", "p2", "p3"]);
    join(&mut reg, "p1", 0);
    join(&mut reg, "p2", 0);
    join(&mut reg, "p3", 0);

    // Never more than `limit` entries.
    assert_eq!(people_of(&reg, 0, 0, 2), vec![addr("p1"), addr("p2")]);
    assert_eq!(people_of(&reg, 0, 0, 0), Vec::<Vec<u8>>::new());
    // A short tail page.
    assert_eq!(people_of(&reg, 0, 2, 10), vec![addr("p3")]);
    // The empty page past the end.
    assert_eq!(people_of(&reg, 0, 3, 10), Vec::<Vec<u8>>::new());
    assert_eq!(people_of(&reg, 0, 1000, 10), Vec::<Vec<u8>>::new());

    // The same bounds on the city table.
    match query(&reg, QueryMsg::LookCities { start_id: 5, limit: 10 }).unwrap() {
        ResponseMsg::LookCities { cities } => assert!(cities.is_empty()),
        other => panic!("unexpected response {:?}", other),
    }
}

#[test]
fn round_trip_restores_membership_state() {
    let now = 1571797419;
    let mut reg = setup(now, &["g0", "g1"], &["p1", "p2"]);
    join(&mut reg, "p1", 0);
    join(&mut reg, "p2", 0);
    join(&mut reg, "p2", 1);

    let people_before = people_of(&reg, 0, 0, 10);
    let cities_before_p1 = cities_of(&reg, "p1", 0, 10);
    let cities_before_p2 = cities_of(&reg, "p2", 0, 10);
    let population_before = population_of(&reg, 0);

    join(&mut reg, "p1", 1);
    leave(&mut reg, "p1", 1);

    assert_eq!(people_of(&reg, 0, 0, 10), people_before);
    assert_eq!(cities_of(&reg, "p1", 0, 10), cities_before_p1);
    assert_eq!(cities_of(&reg, "p2", 0, 10), cities_before_p2);
    assert_eq!(population_of(&reg, 0), population_before);
}

#[test]
fn repeated_add_and_missing_remove_fail_without_changes() {
    let now = 1571797419;
    let mut reg = setup(now, &["g0"], &["p1"]);
    join(&mut reg, "p1", 0);

    let people_before = people_of(&reg, 0, 0, 10);
    let again = execute(&mut reg, now, addr("p1"), ExecuteMsg::RegisterInCity { city_id: 0 });
    match again {
        Err(ContractError::PersonAlreadyRegisteredInCity { nickname, city_name }) => {
            assert_eq!(nickname, "p1".to_string());
            assert_eq!(city_name, "g0".to_string());
        },
        other => panic!("unexpected result {:?}", other),
    }
    assert_eq!(people_of(&reg, 0, 0, 10), people_before);

    leave(&mut reg, "p1", 0);
    let missing = execute(&mut reg, now, addr("p1"), ExecuteMsg::UnregisterFromCity { city_id: 0 });
    match missing {
        Err(ContractError::NotFound { kind }) => assert_eq!(kind, "CityLink".to_string()),
        other => panic!("unexpected result {:?}", other),
    }
    assert_eq!(people_of(&reg, 0, 0, 10), Vec::<Vec<u8>>::new());
}

#[test]
fn error_variants_for_each_failure() {
    let now = 1571797419;
    let mut reg = setup(now, &["g0"], &["p1", "Super_Maintainer_887"]);

    // Unknown person.
    let r = execute(&mut reg, now, addr("ghost"), ExecuteMsg::RegisterInCity { city_id: 0 });
    assert!(matches!(r, Err(ContractError::NotFound { kind }) if kind == "Person"));

    // Unknown city.
    let r = execute(&mut reg, now, addr("p1"), ExecuteMsg::RegisterInCity { city_id: 7 });
    assert!(matches!(r, Err(ContractError::NotFound { kind }) if kind == "City"));

    // Not the maintainer.
    let r = execute(
        &mut reg,
        now,
        addr("p1"),
        ExecuteMsg::RegisterCity { name: "g1".to_string(), power_level: 1 },
    );
    assert!(matches!(r, Err(ContractError::Unauthorized {})));

    // Already the maintainer.
    let r = execute(&mut reg, now, addr("creator"), ExecuteMsg::BecomeMaintainer {});
    assert!(matches!(r, Err(ContractError::AlreadyMaintainer {})));

    // Wrong nickname for a takeover.
    let r = execute(&mut reg, now, addr("p1"), ExecuteMsg::BecomeMaintainer {});
    assert!(
        matches!(r, Err(ContractError::InconsistentMaintainer { requirement }) if requirement == "You are not crazy enough")
    );

    // Invalid birthday.
    let r = execute(
        &mut reg,
        now,
        addr("newcomer"),
        ExecuteMsg::RegisterPerson {
            birthday: Birthday { day: Some(400), year: 2000 },
            nickname: "newcomer".to_string(),
            email: None,
        },
    );
    assert!(matches!(r, Err(ContractError::InconsistentData {})));

    // Duplicate person registration.
    let r = execute(
        &mut reg,
        now,
        addr("p1"),
        ExecuteMsg::RegisterPerson {
            birthday: Birthday { day: None, year: 2000 },
            nickname: "other".to_string(),
            email: None,
        },
    );
    assert!(matches!(r, Err(ContractError::PersonAlreadyRegistered { nickname }) if nickname == "p1"));
}

#[test]
fn maintainer_age_threshold_is_exact() {
    // With a birth year of 2004 and no day given, the takeover age check
    // reads: 1970y + now >= (17 + 2004)y + 366d, with y = 31556952 s and
    // d = 86400 s, so the youngest admissible clock value is
    // (17 + 2004 - 1970) * 31556952 + 366 * 86400 = 1641026952.
    let threshold: u64 = 51 * 31556952 + 366 * 86400;
    assert_eq!(threshold, 1641026952);

    for (now, expect_ok) in [(threshold, true), (threshold - 1, false)] {
        let mut reg = instantiate(addr("creator"), InstantiateMsg {});
        execute(
            &mut reg,
            now,
            addr("candidate"),
            ExecuteMsg::RegisterPerson {
                birthday: Birthday { day: None, year: 2004 },
                nickname: "Super_Maintainer_887".to_string(),
                email: None,
            },
        )
        .unwrap();
        let r = execute(&mut reg, now, addr("candidate"), ExecuteMsg::BecomeMaintainer {});
        if expect_ok {
            r.unwrap();
        } else {
            assert!(
                matches!(r, Err(ContractError::InconsistentMaintainer { requirement }) if requirement == "You are too young")
            );
        }
    }
}

#[test]
fn counters_agree_with_listings_after_mixed_operations() {
    let now = 1571797419;
    let mut reg = setup(now, &["g0", "g1", "g2"], &["p1", "p2", "p3"]);
    let script: &[(&str, u64, bool)] = &[
        ("p1", 0, true),
        ("p2", 0, true),
        ("p3", 0, true),
        ("p1", 1, true),
        ("p2", 2, true),
        ("p1", 0, false),
        ("p3", 2, true),
        ("p2", 0, false),
        ("p1", 2, true),
        ("p3", 0, false),
    ];
    for (who, city, add) in script {
        if *add {
            join(&mut reg, who, *city);
        } else {
            leave(&mut reg, who, *city);
        }
        // After every step, each city's population equals the number of
        // distinct persons listed, and each person's residence counter the
        // number of distinct cities listed.
        for city_id in 0..3 {
            let mut people = people_of(&reg, city_id, 0, 1000);
            assert_eq!(population_of(&reg, city_id) as usize, people.len());
            people.sort();
            people.dedup();
            assert_eq!(population_of(&reg, city_id) as usize, people.len());
        }
        for who in ["p1", "p2", "p3"] {
            let person = query(&reg, QueryMsg::LookPerson { person: addr(who) }).unwrap();
            let resident_times = match person {
                ResponseMsg::LookPerson { person } => person.resident_times,
                other => panic!("unexpected response {:?}", other),
            };
            let mut cities = cities_of(&reg, who, 0, 1000);
            assert_eq!(resident_times as usize, cities.len());
            cities.sort();
            cities.dedup();
            assert_eq!(resident_times as usize, cities.len());
        }
    }
}

//! The registry's message-level operations: instantiation, the state-changing
//! operations behind [`ExecuteMsg`], and the read-only paginated queries
//! behind [`QueryMsg`].

#![verifier::loop_isolation(false)]

use vstd::prelude::*;

verus! {

use crate::error::ContractError;
use crate::msg::{ExecuteMsg, InstantiateMsg, QueryMsg, ResponseMsg};
use crate::state::{
    bytes_eq, clone_bytes, create_city, create_person, find_person, fwd_covered_at, get_city,
    get_person, lemma_person_idx_unique, register_in_city, register_post, remove_post,
    rev_covered_at, unregister_from_city, update_person, Registry, RegistryView,
};
use crate::utils::{
    opt_string_view, Birthday, CityName, CityResponse, Config, Email, Nickname, PersonResponse,
};

/// Seconds in an average Gregorian year.
pub const YEAR_IN_SECONDS: u64 = 31556952;

/// Seconds in a day.
pub const DAY_IN_SECONDS: u64 = 86400;

/// Minimum age of a maintainer, in years.
pub const MAINTAINER_REQUIREMENT_AGE: u8 = 17;

/// The host clock value may not push the age arithmetic or the current-year
/// computation out of range.
pub open spec fn now_in_range(now: u64) -> bool {
    &&& now + 1970 * YEAR_IN_SECONDS <= u64::MAX
    &&& now / YEAR_IN_SECONDS + 1970 <= u16::MAX
}

/// Whether a birthday passes the registration checks against the current
/// time: the day of year, when given, lies in `[1, 366]`, and the year in
/// `[1756, current year]`.
pub open spec fn birthday_valid(now: u64, b: Birthday) -> bool {
    &&& match b.day {
        Some(d) => 1 <= d <= 366,
        None => true,
    }
    &&& 1756 <= b.year
    &&& b.year <= now / YEAR_IN_SECONDS + 1970
}

/// Whether the person was born at least the maintainer-requirement age ago,
/// counting the unknown day of year pessimistically as day 366.
pub open spec fn old_enough(now: u64, b: Birthday) -> bool {
    1970 * YEAR_IN_SECONDS + now >= MAINTAINER_REQUIREMENT_AGE * YEAR_IN_SECONDS + b.year
        * YEAR_IN_SECONDS + (match b.day {
        Some(d) => d as int,
        None => 366,
    }) * DAY_IN_SECONDS
}

/// What a maintainer takeover returns and changes, for every outcome.
pub open spec fn become_maintainer_post(
    pre: RegistryView,
    post: RegistryView,
    now: u64,
    sender: Seq<u8>,
    r: Result<(), ContractError>,
) -> bool {
    match r {
        Ok(()) => {
            &&& sender != pre.config.maintainer
            &&& pre.has_person(sender)
            &&& pre.persons[pre.person_idx(sender)].person.nickname == "Super_Maintainer_887"@
            &&& old_enough(now, pre.persons[pre.person_idx(sender)].person.birthday)
            &&& post == (RegistryView {
                config: crate::utils::ConfigView { maintainer: sender, ..pre.config },
                ..pre
            })
        },
        Err(e) => post == pre && match e {
            ContractError::AlreadyMaintainer {} => sender == pre.config.maintainer,
            ContractError::NotFound { kind } => sender != pre.config.maintainer && !pre.has_person(
                sender,
            ) && kind@ == "Person"@,
            ContractError::InconsistentMaintainer { requirement } => {
                &&& sender != pre.config.maintainer
                &&& pre.has_person(sender)
                &&& if pre.persons[pre.person_idx(sender)].person.nickname
                    != "Super_Maintainer_887"@ {
                    requirement@ == "You are not crazy enough"@
                } else {
                    !old_enough(now, pre.persons[pre.person_idx(sender)].person.birthday)
                        && requirement@ == "You are too young"@
                }
            },
            _ => false,
        },
    }
}

/// What a city registration returns and changes, for every outcome.
pub open spec fn register_city_post(
    pre: RegistryView,
    post: RegistryView,
    sender: Seq<u8>,
    name: Seq<char>,
    power_level: u8,
    r: Result<(), ContractError>,
) -> bool {
    match r {
        Ok(()) => {
            &&& sender == pre.config.maintainer
            &&& post.persons == pre.persons
            &&& post.cities == pre.cities.push(
                crate::state::CityEntryView {
                    city: crate::utils::CityView {
                        city_name: name,
                        power_level,
                        members_count: 0,
                    },
                    members: Seq::empty(),
                },
            )
            &&& post.config.maintainer == pre.config.maintainer
            &&& post.config.cities_count == pre.config.cities_count + 1
        },
        Err(e) => post == pre && (e matches ContractError::Unauthorized {} && sender
            != pre.config.maintainer),
    }
}

/// What a person registration returns and changes, for every outcome.
pub open spec fn register_person_post(
    pre: RegistryView,
    post: RegistryView,
    now: u64,
    sender: Seq<u8>,
    birthday: Birthday,
    nickname: Seq<char>,
    email: Option<Seq<char>>,
    r: Result<(), ContractError>,
) -> bool {
    match r {
        Ok(()) => {
            &&& birthday_valid(now, birthday)
            &&& !pre.has_person(sender)
            &&& post.persons == pre.persons.push(
                crate::state::PersonEntryView {
                    addr: sender,
                    person: crate::utils::PersonView {
                        birthday,
                        nickname,
                        email,
                        cities_count: 0,
                    },
                    cities: Seq::empty(),
                    links: Seq::empty(),
                },
            )
            &&& post.cities == pre.cities
            &&& post.config == pre.config
        },
        Err(e) => post == pre && match e {
            ContractError::InconsistentData {} => !birthday_valid(now, birthday),
            ContractError::PersonAlreadyRegistered { nickname: n } => {
                &&& birthday_valid(now, birthday)
                &&& pre.has_person(sender)
                &&& n@ == pre.persons[pre.person_idx(sender)].person.nickname
            },
            _ => false,
        },
    }
}

/// What a person update returns and changes, for every outcome.
pub open spec fn update_person_post(
    pre: RegistryView,
    post: RegistryView,
    sender: Seq<u8>,
    nickname: Seq<char>,
    email: Option<Seq<char>>,
    r: Result<(), ContractError>,
) -> bool {
    match r {
        Ok(()) => pre.has_person(sender) && {
            let pi = pre.person_idx(sender);
            let pe1 = pre.persons[pi];
            post == (RegistryView {
                persons: pre.persons.update(
                    pi,
                    crate::state::PersonEntryView {
                        person: crate::utils::PersonView { nickname, email, ..pe1.person },
                        ..pe1
                    },
                ),
                ..pre
            })
        },
        Err(e) => post == pre && !pre.has_person(sender) && (e matches ContractError::NotFound {
            kind,
        } && kind@ == "Person"@),
    }
}

/// What a membership addition returns and changes, for every outcome.
pub open spec fn register_in_city_post(
    pre: RegistryView,
    post: RegistryView,
    sender: Seq<u8>,
    city_id: u64,
    r: Result<(), ContractError>,
) -> bool {
    match r {
        Ok(()) => {
            &&& pre.has_person(sender)
            &&& city_id < pre.cities.len()
            &&& !pre.persons[pre.person_idx(sender)].has_link(city_id)
            &&& register_post(pre, post, pre.person_idx(sender), city_id as int)
        },
        Err(e) => post == pre && match e {
            ContractError::NotFound { kind } => (!pre.has_person(sender) && kind@ == "Person"@)
                || (pre.has_person(sender) && city_id >= pre.cities.len() && kind@ == "City"@),
            ContractError::PersonAlreadyRegisteredInCity { nickname, city_name } => {
                &&& pre.has_person(sender)
                &&& city_id < pre.cities.len()
                &&& pre.persons[pre.person_idx(sender)].has_link(city_id)
                &&& nickname@ == pre.persons[pre.person_idx(sender)].person.nickname
                &&& city_name@ == pre.cities[city_id as int].city.city_name
            },
            _ => false,
        },
    }
}

/// What a membership removal returns and changes, for every outcome.
pub open spec fn unregister_from_city_post(
    pre: RegistryView,
    post: RegistryView,
    sender: Seq<u8>,
    city_id: u64,
    r: Result<(), ContractError>,
) -> bool {
    match r {
        Ok(()) => {
            &&& pre.has_person(sender)
            &&& city_id < pre.cities.len()
            &&& pre.persons[pre.person_idx(sender)].has_link(city_id)
            &&& remove_post(pre, post, pre.person_idx(sender), city_id as int)
        },
        Err(e) => post == pre && (e matches ContractError::NotFound { kind } && if !pre.has_person(
            sender,
        ) {
            kind@ == "Person"@
        } else if city_id >= pre.cities.len() {
            kind@ == "City"@
        } else {
            !pre.persons[pre.person_idx(sender)].has_link(city_id) && kind@ == "CityLink"@
        }),
    }
}

/// Creates a fresh registry whose maintainer is the instantiating sender.
pub fn instantiate(sender: Vec<u8>, _msg: InstantiateMsg) -> (reg: Registry)
    ensures
        reg@.wf(),
        reg@.config.maintainer == sender@,
        reg@.config.cities_count == 0,
        reg@.persons.len() == 0,
        reg@.cities.len() == 0,
{
    let reg = Registry {
        config: Config { maintainer: sender, cities_count: 0 },
        persons: Vec::new(),
        cities: Vec::new(),
    };
    proof {
        assert(reg@.persons.len() == 0);
        assert(reg@.cities.len() == 0);
    }
    reg
}

fn execute_become_maintainer(reg: &mut Registry, now_seconds: u64, sender: Vec<u8>) -> (r: Result<
    (),
    ContractError,
>)
    requires
        old(reg)@.wf(),
        now_in_range(now_seconds),
    ensures
        final(reg)@.wf(),
        become_maintainer_post(old(reg)@, final(reg)@, now_seconds, sender@, r),
{
    if bytes_eq(&sender, &reg.config.maintainer) {
        return Err(ContractError::AlreadyMaintainer {});
    }

    let person = match get_person(reg, &sender) {
        Ok(person) => person,
        Err(e) => {
            return Err(e);
        },
    };

    if !(person.nickname == "Super_Maintainer_887".to_owned()) {
        return Err(
            ContractError::InconsistentMaintainer {
                requirement: "You are not crazy enough".to_owned(),
            },
        );
    }

    let day: u64 = match person.birthday.day {
        Some(d) => d as u64,
        None => 366,
    };
    if 1970 * YEAR_IN_SECONDS + now_seconds < (MAINTAINER_REQUIREMENT_AGE as u64) * YEAR_IN_SECONDS
        + person.birthday.year as u64 * YEAR_IN_SECONDS + day * DAY_IN_SECONDS {
        return Err(
            ContractError::InconsistentMaintainer { requirement: "You are too young".to_owned() },
        );
    }

    reg.config.maintainer = sender;
    proof {
        crate::state::lemma_wf_same_tables(old(reg)@, reg@);
        assert(reg@ =~= (RegistryView {
            config: crate::utils::ConfigView { maintainer: sender@, ..old(reg)@.config },
            ..old(reg)@
        }));
    }
    Ok(())
}

fn execute_register_city(
    reg: &mut Registry,
    sender: Vec<u8>,
    name: CityName,
    power_level: u8,
) -> (r: Result<(), ContractError>)
    requires
        old(reg)@.wf(),
    ensures
        final(reg)@.wf(),
        register_city_post(old(reg)@, final(reg)@, sender@, name@, power_level, r),
{
    if !bytes_eq(&sender, &reg.config.maintainer) {
        return Err(ContractError::Unauthorized {});
    }
    create_city(reg, name, power_level)
}

fn execute_register_person(
    reg: &mut Registry,
    now_seconds: u64,
    sender: Vec<u8>,
    birthday: Birthday,
    nickname: Nickname,
    email: Option<Email>,
) -> (r: Result<(), ContractError>)
    requires
        old(reg)@.wf(),
        now_in_range(now_seconds),
    ensures
        final(reg)@.wf(),
        register_person_post(
            old(reg)@,
            final(reg)@,
            now_seconds,
            sender@,
            birthday,
            nickname@,
            opt_string_view(email),
            r,
        ),
{
    if let Some(day) = birthday.day {
        if day > 366 || day == 0 {
            return Err(ContractError::InconsistentData {});
        }
    }

    if birthday.year < 1756 || birthday.year > (now_seconds / YEAR_IN_SECONDS) as u16 + 1970 {
        return Err(ContractError::InconsistentData {});
    }

    create_person(reg, sender, birthday, nickname, email)
}

fn execute_update_person(
    reg: &mut Registry,
    sender: Vec<u8>,
    nickname: Nickname,
    email: Option<Email>,
) -> (r: Result<(), ContractError>)
    requires
        old(reg)@.wf(),
    ensures
        final(reg)@.wf(),
        update_person_post(old(reg)@, final(reg)@, sender@, nickname@, opt_string_view(email), r),
{
    update_person(reg, sender, nickname, email)
}

/// Routes a state-changing request to the corresponding operation.
///
/// `now_seconds` is the host's clock (seconds since the epoch), used for the
/// age checks; `sender` is the identity the host resolved for the caller.
pub fn execute(reg: &mut Registry, now_seconds: u64, sender: Vec<u8>, msg: ExecuteMsg) -> (r:
    Result<(), ContractError>)
    requires
        old(reg)@.wf(),
        now_in_range(now_seconds),
    ensures
        final(reg)@.wf(),
        match msg {
            ExecuteMsg::BecomeMaintainer {} => become_maintainer_post(
                old(reg)@,
                final(reg)@,
                now_seconds,
                sender@,
                r,
            ),
            ExecuteMsg::RegisterCity { name, power_level } => register_city_post(
                old(reg)@,
                final(reg)@,
                sender@,
                name@,
                power_level,
                r,
            ),
            ExecuteMsg::RegisterPerson { birthday, nickname, email } => register_person_post(
                old(reg)@,
                final(reg)@,
                now_seconds,
                sender@,
                birthday,
                nickname@,
                opt_string_view(email),
                r,
            ),
            ExecuteMsg::UpdatePerson { nickname, email } => update_person_post(
                old(reg)@,
                final(reg)@,
                sender@,
                nickname@,
                opt_string_view(email),
                r,
            ),
            ExecuteMsg::RegisterInCity { city_id } => register_in_city_post(
                old(reg)@,
                final(reg)@,
                sender@,
                city_id,
                r,
            ),
            ExecuteMsg::UnregisterFromCity { city_id } => unregister_from_city_post(
                old(reg)@,
                final(reg)@,
                sender@,
                city_id,
                r,
            ),
        },
{
    match msg {
        ExecuteMsg::BecomeMaintainer {} => execute_become_maintainer(reg, now_seconds, sender),
        ExecuteMsg::RegisterCity { name, power_level } => execute_register_city(
            reg,
            sender,
            name,
            power_level,
        ),
        ExecuteMsg::RegisterPerson { birthday, nickname, email } => execute_register_person(
            reg,
            now_seconds,
            sender,
            birthday,
            nickname,
            email,
        ),
        ExecuteMsg::UpdatePerson { nickname, email } => execute_update_person(
            reg,
            sender,
            nickname,
            email,
        ),
        ExecuteMsg::RegisterInCity { city_id } => register_in_city(reg, sender, city_id),
        ExecuteMsg::UnregisterFromCity { city_id } => unregister_from_city(reg, sender, city_id),
    }
}


/// How many entries a page starting at `start` with limit `limit` holds, out
/// of `count` in total.
pub open spec fn page_len(start: u64, limit: u64, count: int) -> int {
    if start >= count {
        0
    } else if start + limit <= count {
        limit as int
    } else {
        count - start
    }
}

/// The query representation of city `id` is faithful to the table.
pub open spec fn city_response_ok(s: RegistryView, id: u64, cr: CityResponse) -> bool {
    &&& cr.id == id
    &&& id < s.cities.len()
    &&& cr.name@ == s.cities[id as int].city.city_name
    &&& cr.power_level == s.cities[id as int].city.power_level
    &&& cr.population == s.cities[id as int].city.members_count
}

/// The query representation of the person under `addr` is faithful to the
/// table.
pub open spec fn person_response_ok(s: RegistryView, addr: Seq<u8>, pr: PersonResponse) -> bool {
    &&& s.has_person(addr)
    &&& pr.address@ == addr
    &&& pr.birthday == s.persons[s.person_idx(addr)].person.birthday
    &&& pr.nickname@ == s.persons[s.person_idx(addr)].person.nickname
    &&& opt_string_view(pr.email) == s.persons[s.person_idx(addr)].person.email
    &&& pr.resident_times == s.persons[s.person_idx(addr)].person.cities_count
}

/// What a single-person lookup returns, for every outcome.
pub open spec fn look_person_post(
    s: RegistryView,
    addr: Seq<u8>,
    r: Result<ResponseMsg, ContractError>,
) -> bool {
    match r {
        Ok(resp) => resp matches ResponseMsg::LookPerson { person } && person_response_ok(
            s,
            addr,
            person,
        ),
        Err(e) => !s.has_person(addr) && (e matches ContractError::NotFound { kind } && kind@
            == "Person"@),
    }
}

/// What a page over the city table returns: at most `limit` entries, one for
/// each id from `start_id` on that exists, in id order.
pub open spec fn look_cities_post(
    s: RegistryView,
    start_id: u64,
    limit: u64,
    r: Result<ResponseMsg, ContractError>,
) -> bool {
    match r {
        Ok(resp) => resp matches ResponseMsg::LookCities { cities } && {
            &&& cities@.len() == page_len(start_id, limit, s.cities.len() as int)
            &&& cities@.len() <= limit
            &&& (start_id >= s.cities.len() ==> cities@.len() == 0)
            &&& forall|t: int|
                0 <= t < cities@.len() ==> city_response_ok(
                    s,
                    (start_id + t) as u64,
                    #[trigger] cities@[t],
                )
        },
        Err(e) => false,
    }
}

/// What a page over one person's reverse slots returns: at most `limit`
/// cities, those in slots `start_id` onward, in slot order.
pub open spec fn look_person_cities_post(
    s: RegistryView,
    addr: Seq<u8>,
    start_id: u64,
    limit: u64,
    r: Result<ResponseMsg, ContractError>,
) -> bool {
    match r {
        Ok(resp) => resp matches ResponseMsg::LookPersonCities { cities } && s.has_person(addr)
            && {
            let pe = s.persons[s.person_idx(addr)];
            &&& cities@.len() == page_len(start_id, limit, pe.cities.len() as int)
            &&& cities@.len() <= limit
            &&& (start_id >= pe.cities.len() ==> cities@.len() == 0)
            &&& forall|t: int|
                0 <= t < cities@.len() ==> city_response_ok(
                    s,
                    pe.cities[start_id + t],
                    #[trigger] cities@[t],
                )
        },
        Err(e) => !s.has_person(addr) && (e matches ContractError::NotFound { kind } && kind@
            == "Person"@),
    }
}

/// What a page over one city's forward slots returns: at most `limit`
/// persons, those in slots `start_id` onward, in slot order.
pub open spec fn look_city_people_post(
    s: RegistryView,
    city_id: u64,
    start_id: u64,
    limit: u64,
    r: Result<ResponseMsg, ContractError>,
) -> bool {
    match r {
        Ok(resp) => resp matches ResponseMsg::LookCityPeople { people } && city_id
            < s.cities.len() && {
            let mem = s.cities[city_id as int].members;
            &&& people@.len() == page_len(start_id, limit, mem.len() as int)
            &&& people@.len() <= limit
            &&& (start_id >= mem.len() ==> people@.len() == 0)
            &&& forall|t: int|
                0 <= t < people@.len() ==> person_response_ok(
                    s,
                    mem[start_id + t],
                    #[trigger] people@[t],
                )
        },
        Err(e) => city_id >= s.cities.len() && (e matches ContractError::NotFound { kind } && kind@
            == "City"@),
    }
}

fn query_look_maintainer(reg: &Registry) -> (r: Result<ResponseMsg, ContractError>)
    ensures
        r matches Ok(resp) && (resp matches ResponseMsg::LookMaintainer { maintainer }
            && maintainer@ == reg@.config.maintainer),
{
    Ok(ResponseMsg::LookMaintainer { maintainer: clone_bytes(&reg.config.maintainer) })
}

fn query_look_person(reg: &Registry, addr: Vec<u8>) -> (r: Result<ResponseMsg, ContractError>)
    requires
        reg@.wf(),
    ensures
        look_person_post(reg@, addr@, r),
{
    let person = match get_person(reg, &addr) {
        Ok(person) => person,
        Err(e) => {
            return Err(e);
        },
    };
    Ok(
        ResponseMsg::LookPerson {
            person: PersonResponse {
                address: addr,
                birthday: person.birthday,
                nickname: person.nickname,
                email: person.email,
                resident_times: person.cities_count,
            },
        },
    )
}

#[verifier::rlimit(30)]
fn query_look_cities(reg: &Registry, start_id: u64, limit: u64) -> (r: Result<
    ResponseMsg,
    ContractError,
>)
    requires
        reg@.wf(),
        start_id + limit <= u64::MAX,
    ensures
        look_cities_post(reg@, start_id, limit, r),
{
    let count = reg.config.cities_count;
    let mut result: Vec<CityResponse> = Vec::new();
    let mut i: u64 = start_id;
    while i < start_id + limit && i < count
        invariant
            start_id <= i <= start_id + limit,
            i <= count || i == start_id,
            result@.len() == i - start_id,
            forall|t: int|
                0 <= t < result@.len() ==> city_response_ok(
                    reg@,
                    (start_id + t) as u64,
                    #[trigger] result@[t],
                ),
        decreases start_id + limit - i,
    {
        let city = match get_city(reg, i) {
            Ok(city) => city,
            Err(e) => {
                proof {
                    assert(false);
                }
                return Err(e);
            },
        };
        result.push(
            CityResponse {
                id: i,
                name: city.city_name,
                power_level: city.power_level,
                population: city.members_count,
            },
        );
        i = i + 1;
    }
    Ok(ResponseMsg::LookCities { cities: result })
}

#[verifier::rlimit(30)]
fn query_look_person_cities(reg: &Registry, addr: Vec<u8>, start_id: u64, limit: u64) -> (r:
    Result<ResponseMsg, ContractError>)
    requires
        reg@.wf(),
        start_id + limit <= u64::MAX,
    ensures
        look_person_cities_post(reg@, addr@, start_id, limit, r),
{
    let p = match find_person(reg, &addr) {
        Some(p) => p,
        None => {
            return Err(ContractError::NotFound { kind: "Person".to_owned() });
        },
    };
    proof {
        lemma_person_idx_unique(reg@, p as int);
    }
    let ghost pi = p as int;
    let count = reg.persons[p].person.cities_count;
    let mut result: Vec<CityResponse> = Vec::new();
    let mut i: u64 = start_id;
    while i < start_id + limit && i < count
        invariant
            reg@.has_person(addr@),
            pi == reg@.person_idx(addr@),
            0 <= pi < reg@.persons.len(),
            count == reg@.persons[pi].cities.len(),
            start_id <= i <= start_id + limit,
            i <= count || i == start_id,
            result@.len() == i - start_id,
            forall|t: int|
                0 <= t < result@.len() ==> city_response_ok(
                    reg@,
                    reg@.persons[pi].cities[start_id + t],
                    #[trigger] result@[t],
                ),
        decreases start_id + limit - i,
    {
        let city_id = match crate::state::get_city_id_by_person(reg, &addr, i) {
            Ok(city_id) => city_id,
            Err(e) => {
                proof {
                    assert(false);
                }
                return Err(e);
            },
        };
        proof {
            assert(rev_covered_at(reg@.persons[pi], i as int));
            let kr = crate::state::rev_link_of(reg@.persons[pi], i as int);
            assert(reg@.link_ok(pi, reg@.persons[pi].links[kr]));
            assert(city_id < reg@.cities.len());
        }
        let city = match get_city(reg, city_id) {
            Ok(city) => city,
            Err(e) => {
                proof {
                    assert(false);
                }
                return Err(e);
            },
        };
        result.push(
            CityResponse {
                id: city_id,
                name: city.city_name,
                power_level: city.power_level,
                population: city.members_count,
            },
        );
        i = i + 1;
    }
    Ok(ResponseMsg::LookPersonCities { cities: result })
}

#[verifier::rlimit(30)]
fn query_look_city_people(reg: &Registry, city_id: u64, start_id: u64, limit: u64) -> (r: Result<
    ResponseMsg,
    ContractError,
>)
    requires
        reg@.wf(),
        start_id + limit <= u64::MAX,
    ensures
        look_city_people_post(reg@, city_id, start_id, limit, r),
{
    let city = match get_city(reg, city_id) {
        Ok(city) => city,
        Err(e) => {
            return Err(e);
        },
    };
    let ghost ci = city_id as int;
    let count = city.members_count;
    let mut result: Vec<PersonResponse> = Vec::new();
    let mut i: u64 = start_id;
    while i < start_id + limit && i < count
        invariant
            0 <= ci < reg@.cities.len(),
            count == reg@.cities[ci].members.len(),
            start_id <= i <= start_id + limit,
            i <= count || i == start_id,
            result@.len() == i - start_id,
            forall|t: int|
                0 <= t < result@.len() ==> person_response_ok(
                    reg@,
                    reg@.cities[ci].members[start_id + t],
                    #[trigger] result@[t],
                ),
        decreases start_id + limit - i,
    {
        let member_addr = match crate::state::get_person_address_by_city(reg, city_id, i) {
            Ok(member_addr) => member_addr,
            Err(e) => {
                proof {
                    assert(false);
                }
                return Err(e);
            },
        };
        proof {
            assert(fwd_covered_at(reg@.persons, ci, i as int));
            let pk = crate::state::fwd_link_of(reg@.persons, ci, i as int);
            assert(reg@.link_ok(pk.0, reg@.persons[pk.0].links[pk.1]));
            assert(reg@.persons[pk.0].addr == member_addr@);
            assert(reg@.has_person(member_addr@));
        }
        let person = match get_person(reg, &member_addr) {
            Ok(person) => person,
            Err(e) => {
                proof {
                    assert(false);
                }
                return Err(e);
            },
        };
        result.push(
            PersonResponse {
                address: member_addr,
                birthday: person.birthday,
                nickname: person.nickname,
                email: person.email,
                resident_times: person.cities_count,
            },
        );
        i = i + 1;
    }
    Ok(ResponseMsg::LookCityPeople { people: result })
}

/// Routes a read-only request to the corresponding lookup.
pub fn query(reg: &Registry, msg: QueryMsg) -> (r: Result<ResponseMsg, ContractError>)
    requires
        reg@.wf(),
        match msg {
            QueryMsg::LookCities { start_id, limit } => start_id + limit <= u64::MAX,
            QueryMsg::LookPersonCities { start_id, limit, .. } => start_id + limit <= u64::MAX,
            QueryMsg::LookCityPeople { start_id, limit, .. } => start_id + limit <= u64::MAX,
            _ => true,
        },
    ensures
        match msg {
            QueryMsg::LookMaintainer {} => r matches Ok(resp) && (resp matches
                ResponseMsg::LookMaintainer { maintainer } && maintainer@
                == reg@.config.maintainer),
            QueryMsg::LookPerson { person } => look_person_post(reg@, person@, r),
            QueryMsg::LookCities { start_id, limit } => look_cities_post(reg@, start_id, limit, r),
            QueryMsg::LookPersonCities { person, start_id, limit } => look_person_cities_post(
                reg@,
                person@,
                start_id,
                limit,
                r,
            ),
            QueryMsg::LookCityPeople { city, start_id, limit } => look_city_people_post(
                reg@,
                city,
                start_id,
                limit,
                r,
            ),
        },
{
    match msg {
        QueryMsg::LookMaintainer {} => query_look_maintainer(reg),
        QueryMsg::LookPerson { person } => query_look_person(reg, person),
        QueryMsg::LookCities { start_id, limit } => query_look_cities(reg, start_id, limit),
        QueryMsg::LookPersonCities { person, start_id, limit } => query_look_person_cities(
            reg,
            person,
            start_id,
            limit,
        ),
        QueryMsg::LookCityPeople { city, start_id, limit } => query_look_city_people(
            reg,
            city,
            start_id,
            limit,
        ),
    }
}

} // verus!

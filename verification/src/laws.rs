//! The laws of the membership index, stated and proved over the transition
//! relations that the operations' contracts use.
//!
//! Well-formedness itself (the four structural invariants) is carried by the
//! `ensures` of every operation: each one requires a well-formed registry and
//! returns a well-formed registry, so any sequence of calls that starts from
//! `instantiate` stays well-formed.

use vstd::prelude::*;

verus! {

use crate::contract::{register_in_city_post, unregister_from_city_post};
use crate::error::ContractError;
use crate::state::{
    links_distinct, register_post, remove_post, fwd_covered_at, fwd_link_of, last_city,
    last_member, lemma_members_distinct, lemma_pe_link_idx, lemma_person_idx_unique,
    lemma_wf_register, moved_person, removed_link, rev_covered_at, rev_link_of, RegistryView,
};
use crate::utils::{CityView, PersonView};

/// Adding a relation makes the person a member: the freshly added
/// cross-reference link is present afterwards, so a second identical
/// addition fails with the already-a-member error and changes nothing, by
/// the contract of the adding operation.
pub proof fn lemma_register_makes_member(s0: RegistryView, s1: RegistryView, pi: int, c: int)
    requires
        s0.wf(),
        0 <= pi < s0.persons.len(),
        0 <= c < s0.cities.len(),
        !s0.persons[pi].has_link(c as u64),
        register_post(s0, s1, pi, c),
    ensures
        s1.persons[pi].has_link(c as u64),
        s1.has_person(s0.persons[pi].addr),
        s1.person_idx(s0.persons[pi].addr) == pi,
{
    let len0 = s0.persons[pi].links.len() as int;
    assert(s1.persons[pi].links[len0].city_id == c);
    assert(s1.persons[pi].has_link(c as u64));
    assert(s1.persons[pi].addr == s0.persons[pi].addr);
    assert forall|q: int|
        0 <= q < s1.persons.len() implies (#[trigger] s1.persons[q]).addr
        == s0.persons[q].addr by {
        if q != pi {
            assert(s1.persons[q] == s0.persons[q]);
        }
    }
    assert(s1.wf_persons_distinct());
    lemma_person_idx_unique(s1, pi);
}

/// Round trip: adding a relation and then removing it restores the registry
/// exactly - both counters, both slot arrays, and the cross-reference table.
#[verifier::rlimit(60)]
pub proof fn lemma_register_unregister_round_trip(
    s0: RegistryView,
    s1: RegistryView,
    s2: RegistryView,
    pi: int,
    c: int,
)
    requires
        s0.wf(),
        0 <= pi < s0.persons.len(),
        0 <= c < s0.cities.len(),
        !s0.persons[pi].has_link(c as u64),
        s0.cities[c].members.len() < u64::MAX,
        s0.persons[pi].cities.len() < u64::MAX,
        register_post(s0, s1, pi, c),
        remove_post(s1, s2, pi, c),
    ensures
        s2 == s0,
{
    lemma_wf_register(s0, s1, pi, c);
    let pe0 = s0.persons[pi];
    let ce0 = s0.cities[c];
    let m0 = ce0.members.len() as int;
    let n0 = pe0.cities.len() as int;
    let new_link = crate::state::CityLink {
        city_id: c as u64,
        person_in_city: m0 as u64,
        city_in_person: n0 as u64,
    };
    let pe1 = s1.persons[pi];
    assert(pe1.links == pe0.links.push(new_link));
    assert(pe1.cities == pe0.cities.push(c as u64));
    let members1 = s1.cities[c].members;
    assert(members1 == ce0.members.push(pe0.addr));

    // The removed link is the one the addition pushed.
    assert(links_distinct(pe1.links));
    lemma_pe_link_idx(pe1, pe0.links.len() as int);
    let k = pe1.link_idx(c as u64);
    assert(k == pe0.links.len());
    assert(pe1.links[k] == new_link);
    let l = removed_link(s1, pi, c);
    assert(l == new_link);

    // The moved member is the leaving person, the moved city is `c`.
    assert(last_member(s1, c) == pe0.addr);
    lemma_person_idx_unique(s1, pi);
    assert(moved_person(s1, c) == pi);
    assert(last_city(s1, pi) == c);

    // The forward compaction step is the identity.
    assert(pe1.links.update(k, crate::state::CityLink { person_in_city: l.person_in_city, ..new_link })
        =~= pe1.links);
    assert((crate::state::PersonEntryView {
        links: pe1.links.update(
            k,
            crate::state::CityLink { person_in_city: l.person_in_city, ..new_link },
        ),
        ..pe1
    }) =~= pe1);
    let persons_a = crate::state::fwd_fixed_persons(s1, pi, c);
    assert(persons_a =~= s1.persons);

    // The reverse compaction step is the identity.
    assert(pe1.link_idx(last_city(s1, pi)) == k);
    assert((crate::state::CityLink { city_in_person: l.city_in_person, ..new_link }) == new_link);
    let persons_b = crate::state::rev_fixed_persons(s1, pi, c);
    assert(persons_b =~= persons_a.update(
        pi,
        crate::state::PersonEntryView { links: pe1.links.update(k, new_link), ..pe1 },
    ));
    assert(pe1.links.update(k, new_link) =~= pe1.links);
    assert(persons_b[pi].links =~= pe1.links);

    // Dropping the trailing slots and the link restores the person entry.
    assert(persons_b[pi].links.remove(k) =~= pe0.links);
    assert(pe1.cities.update(n0, c as u64) =~= pe1.cities);
    assert(pe1.cities.update(n0, c as u64).drop_last() =~= pe0.cities);
    assert((PersonView { cities_count: n0 as u64, ..pe1.person }) =~= pe0.person);
    assert(crate::state::remove_result_persons(s1, pi, c) =~~= s1.persons.update(pi, pe0));
    assert(s2.persons =~~= s0.persons.update(pi, pe1).update(pi, pe0));
    assert(s2.persons =~~= s0.persons);

    // Dropping the trailing forward slot restores the city entry.
    assert(members1.update(m0, pe0.addr) =~= members1);
    assert(crate::state::remove_result_members(s1, pi, c) =~~= members1.drop_last());
    assert(members1.drop_last() =~= ce0.members);
    assert((CityView { members_count: m0 as u64, ..s1.cities[c].city }) =~= ce0.city);
    assert(s2.cities =~~= s0.cities);

    assert(s2.config == s0.config);
    assert(s2 =~~= s0);
}

/// Counter/array agreement on the city side: the member counter equals the
/// number of forward slots, the slots hold pairwise distinct persons (so the
/// set of listed members has exactly that cardinality), and a person occupies
/// a slot exactly when it holds a cross-reference link for the city.
pub proof fn lemma_city_counter_agreement(s: RegistryView, c: int)
    requires
        s.wf(),
        0 <= c < s.cities.len(),
    ensures
        s.cities[c].city.members_count == s.cities[c].members.len(),
        s.cities[c].members.no_duplicates(),
        s.cities[c].members.to_set().len() == s.cities[c].city.members_count,
        forall|p: int|
            0 <= p < s.persons.len() ==> ((#[trigger] s.persons[p]).has_link(c as u64)
                <==> s.cities[c].members.contains(s.persons[p].addr)),
{
    let mem = s.cities[c].members;
    assert forall|i1: int, i2: int|
        0 <= i1 < mem.len() && 0 <= i2 < mem.len() && i1 != i2 implies mem[i1] != mem[i2] by {
        if mem[i1] == mem[i2] {
            lemma_members_distinct(s, c, i1, i2);
        }
    }
    assert(mem.no_duplicates());
    mem.unique_seq_to_set();
    assert forall|p: int|
        0 <= p < s.persons.len() implies ((#[trigger] s.persons[p]).has_link(c as u64)
        <==> mem.contains(s.persons[p].addr)) by {
        if s.persons[p].has_link(c as u64) {
            let k = s.persons[p].link_idx(c as u64);
            assert(s.link_ok(p, s.persons[p].links[k]));
            let sl = s.persons[p].links[k].person_in_city as int;
            assert(mem[sl] == s.persons[p].addr);
            assert(mem.contains(s.persons[p].addr));
        }
        if mem.contains(s.persons[p].addr) {
            let sl = choose|sl: int| 0 <= sl < mem.len() && mem[sl] == s.persons[p].addr;
            assert(fwd_covered_at(s.persons, c, sl));
            let pk = fwd_link_of(s.persons, c, sl);
            assert(s.link_ok(pk.0, s.persons[pk.0].links[pk.1]));
            assert(s.persons[pk.0].addr == s.persons[p].addr);
            if pk.0 != p {
                assert(s.persons[pk.0].addr != s.persons[p].addr);
            }
            assert(s.persons[p].links[pk.1].city_id == c);
            assert(s.persons[p].has_link(c as u64));
        }
    }
}

/// Counter/array agreement on the person side: the membership counter equals
/// the number of reverse slots, the slots hold pairwise distinct cities (so
/// the set of listed cities has exactly that cardinality), and a city sits in
/// a slot exactly when the person holds a cross-reference link for it.
pub proof fn lemma_person_counter_agreement(s: RegistryView, p: int)
    requires
        s.wf(),
        0 <= p < s.persons.len(),
    ensures
        s.persons[p].person.cities_count == s.persons[p].cities.len(),
        s.persons[p].cities.no_duplicates(),
        s.persons[p].cities.to_set().len() == s.persons[p].person.cities_count,
        forall|c: u64|
            (#[trigger] s.persons[p].has_link(c)) <==> s.persons[p].cities.contains(c),
{
    let pe = s.persons[p];
    assert forall|j1: int, j2: int|
        0 <= j1 < pe.cities.len() && 0 <= j2 < pe.cities.len() && j1 != j2 implies pe.cities[j1]
        != pe.cities[j2] by {
        if pe.cities[j1] == pe.cities[j2] {
            crate::state::lemma_rev_cities_distinct(s, p, j1, j2);
        }
    }
    assert(pe.cities.no_duplicates());
    pe.cities.unique_seq_to_set();
    assert forall|c: u64| (#[trigger] pe.has_link(c)) <==> pe.cities.contains(c) by {
        if pe.has_link(c) {
            let k = pe.link_idx(c);
            assert(s.link_ok(p, pe.links[k]));
            assert(pe.cities[pe.links[k].city_in_person as int] == c);
            assert(pe.cities.contains(c));
        }
        if pe.cities.contains(c) {
            let j = choose|j: int| 0 <= j < pe.cities.len() && pe.cities[j] == c;
            assert(rev_covered_at(pe, j));
            let k = rev_link_of(pe, j);
            assert(s.link_ok(p, pe.links[k]));
            assert(pe.links[k].city_id == c);
            assert(pe.has_link(c));
        }
    }
}



/// Idempotent failure of the addition: immediately repeating a successful
/// addition must fail with the already-a-member error, carrying the person's
/// and the city's display names, and leave the registry unchanged.
pub proof fn lemma_repeated_register_fails(
    s0: RegistryView,
    s1: RegistryView,
    s2: RegistryView,
    sender: Seq<u8>,
    city_id: u64,
    r2: Result<(), ContractError>,
)
    requires
        s0.wf(),
        register_in_city_post(s0, s1, sender, city_id, Ok(())),
        register_in_city_post(s1, s2, sender, city_id, r2),
    ensures
        s2 == s1,
        r2 matches Err(ContractError::PersonAlreadyRegisteredInCity { nickname, city_name })
            && nickname@ == s1.persons[s1.person_idx(sender)].person.nickname && city_name@
            == s1.cities[city_id as int].city.city_name,
{
    let pi = s0.person_idx(sender);
    lemma_register_makes_member(s0, s1, pi, city_id as int);
    assert(s1.person_idx(sender) == pi);
    assert(s1.cities.len() == s0.cities.len());
    match r2 {
        Ok(()) => {
            assert(!s1.persons[pi].has_link(city_id));
            assert(false);
        },
        Err(e) => {
            match e {
                ContractError::NotFound { kind } => {
                    assert(false);
                },
                ContractError::PersonAlreadyRegisteredInCity { nickname, city_name } => {},
                _ => {
                    assert(false);
                },
            }
        },
    }
}

/// Idempotent failure of the removal: removing a relation that is not there,
/// between a person and a city that both exist, must fail with the
/// not-a-member error and leave the registry unchanged.
pub proof fn lemma_remove_nonmember_fails(
    s: RegistryView,
    s2: RegistryView,
    sender: Seq<u8>,
    city_id: u64,
    r: Result<(), ContractError>,
)
    requires
        s.wf(),
        s.has_person(sender),
        city_id < s.cities.len(),
        !s.persons[s.person_idx(sender)].has_link(city_id),
        unregister_from_city_post(s, s2, sender, city_id, r),
    ensures
        s2 == s,
        r matches Err(ContractError::NotFound { kind }) && kind@ == "CityLink"@,
{
}

} // verus!

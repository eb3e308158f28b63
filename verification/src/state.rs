//! The registry state: person and city tables and the dense array-backed
//! bidirectional membership index, with its well-formedness invariant.
//!
//! For every person/city relation there are three records:
//! - a forward slot: position `i` in the city's member array holds the
//!   person's address,
//! - a reverse slot: position `j` in the person's city array holds the city
//!   id,
//! - a cross-reference link `(city_id, i, j)` stored with the person, whose
//!   presence is the single source of truth for "this person is a member of
//!   this city".
//!
//! Both slot arrays are dense (no gaps); removal moves the last slot into the
//! freed position, so enumeration order is not preserved but density is.

#![verifier::loop_isolation(false)]

use vstd::prelude::*;

verus! {

use crate::error::ContractError;
use crate::utils::{Birthday, City, CityView, Config, ConfigView, Person, PersonView};

/// A cross-reference entry: ties one person/city relation to its two array
/// positions.
#[derive(Clone, Copy, Debug, PartialEq, Eq, Structural)]
pub struct CityLink {
    /// The city this link is about.
    pub city_id: u64,

    /// Position of the person inside the city's member array (forward slot).
    pub person_in_city: u64,

    /// Position of the city inside the person's city array (reverse slot).
    pub city_in_person: u64,
}

/// A person record together with the person's side of the membership index.
#[derive(Debug)]
pub struct PersonEntry {
    /// Identity of the person (an opaque byte-string key).
    pub addr: Vec<u8>,

    /// The person record itself.
    pub person: Person,

    /// Reverse slots: the ids of the cities this person is registered in,
    /// densely packed.
    pub cities: Vec<u64>,

    /// The cross-reference entries of this person, one per city the person is
    /// registered in, in no particular order.
    pub links: Vec<CityLink>,
}

/// A city record together with the city's side of the membership index.
#[derive(Debug)]
pub struct CityEntry {
    /// The city record itself.
    pub city: City,

    /// Forward slots: the addresses of the persons registered in this city,
    /// densely packed.
    pub members: Vec<Vec<u8>>,
}

/// The whole registry: configuration, person table and city table.
///
/// City ids are dense: the city with id `c` is `cities[c]`, ids start at 0 and
/// are never reused. Persons are looked up by address.
#[derive(Debug)]
pub struct Registry {
    pub config: Config,
    pub persons: Vec<PersonEntry>,
    pub cities: Vec<CityEntry>,
}

/// Mathematical value of a [`PersonEntry`].
#[verifier::ext_equal]
pub ghost struct PersonEntryView {
    pub addr: Seq<u8>,
    pub person: PersonView,
    pub cities: Seq<u64>,
    pub links: Seq<CityLink>,
}

impl View for PersonEntry {
    type V = PersonEntryView;

    open spec fn view(&self) -> PersonEntryView {
        PersonEntryView {
            addr: self.addr@,
            person: self.person@,
            cities: self.cities@,
            links: self.links@,
        }
    }
}

/// Mathematical value of a [`CityEntry`].
#[verifier::ext_equal]
pub ghost struct CityEntryView {
    pub city: CityView,
    pub members: Seq<Seq<u8>>,
}

impl View for CityEntry {
    type V = CityEntryView;

    open spec fn view(&self) -> CityEntryView {
        CityEntryView {
            city: self.city@,
            members: self.members@.map_values(|m: Vec<u8>| m@),
        }
    }
}

/// Mathematical value of a [`Registry`].
#[verifier::ext_equal]
pub ghost struct RegistryView {
    pub config: ConfigView,
    pub persons: Seq<PersonEntryView>,
    pub cities: Seq<CityEntryView>,
}

impl View for Registry {
    type V = RegistryView;

    open spec fn view(&self) -> RegistryView {
        RegistryView {
            config: self.config@,
            persons: self.persons@.map_values(|pe: PersonEntry| pe@),
            cities: self.cities@.map_values(|ce: CityEntry| ce@),
        }
    }
}

impl PersonEntryView {
    /// Whether this person holds a cross-reference link for city `c`.
    pub open spec fn has_link(self, c: u64) -> bool {
        exists|k: int| 0 <= k < self.links.len() && (#[trigger] self.links[k]).city_id == c
    }

    /// The index of this person's link for city `c` (meaningful only when
    /// `has_link(c)` holds; under well-formedness it is unique).
    pub open spec fn link_idx(self, c: u64) -> int {
        choose|k: int| 0 <= k < self.links.len() && (#[trigger] self.links[k]).city_id == c
    }

    /// The link of this person for city `c`.
    pub open spec fn link_for(self, c: u64) -> CityLink {
        self.links[self.link_idx(c)]
    }
}

/// The canonical link covering forward slot `s` of city `c`: the pair of a
/// person index and a link index whose link points at that slot.
pub open spec fn fwd_link_of(persons: Seq<PersonEntryView>, c: int, s: int) -> (int, int) {
    choose|p: int, k: int|
        0 <= p < persons.len() && 0 <= k < persons[p].links.len()
            && ((#[trigger] persons[p].links[k]).city_id == c
            && persons[p].links[k].person_in_city == s)
}

/// Whether some link points at forward slot `s` of city `c`.
pub open spec fn fwd_covered_at(persons: Seq<PersonEntryView>, c: int, s: int) -> bool {
    let pk = fwd_link_of(persons, c, s);
    0 <= pk.0 < persons.len() && 0 <= pk.1 < persons[pk.0].links.len()
        && persons[pk.0].links[pk.1].city_id == c && persons[pk.0].links[pk.1].person_in_city == s
}

/// The canonical link of person `pe` covering reverse slot `j`.
pub open spec fn rev_link_of(pe: PersonEntryView, j: int) -> int {
    choose|k: int| 0 <= k < pe.links.len() && (#[trigger] pe.links[k]).city_in_person == j
}

/// Whether some link of person `pe` points at reverse slot `j`.
pub open spec fn rev_covered_at(pe: PersonEntryView, j: int) -> bool {
    let k = rev_link_of(pe, j);
    0 <= k < pe.links.len() && pe.links[k].city_in_person == j
}

/// A concrete link pointing at a forward slot shows the slot covered.
pub proof fn lemma_fwd_covered_intro(persons: Seq<PersonEntryView>, c: int, s: int, p: int, k: int)
    requires
        0 <= p < persons.len(),
        0 <= k < persons[p].links.len(),
        persons[p].links[k].city_id == c,
        persons[p].links[k].person_in_city == s,
    ensures
        fwd_covered_at(persons, c, s),
{
    assert(0 <= p < persons.len() && 0 <= k < persons[p].links.len()
        && ((#[trigger] persons[p].links[k]).city_id == c
        && persons[p].links[k].person_in_city == s));
}

/// A concrete link pointing at a reverse slot shows the slot covered.
pub proof fn lemma_rev_covered_intro(pe: PersonEntryView, j: int, k: int)
    requires
        0 <= k < pe.links.len(),
        pe.links[k].city_in_person == j,
    ensures
        rev_covered_at(pe, j),
{
    assert(0 <= k < pe.links.len() && (#[trigger] pe.links[k]).city_in_person == j);
}

/// All links in the sequence are about pairwise distinct cities.
pub open spec fn links_distinct(links: Seq<CityLink>) -> bool {
    forall|k1: int, k2: int|
        0 <= k1 < links.len() && 0 <= k2 < links.len() && k1 != k2 ==> (#[trigger] links[k1]).city_id
            != (#[trigger] links[k2]).city_id
}

/// When a person's links carry distinct city ids, `link_idx` is the index of
/// any link whose city matches.
pub proof fn lemma_pe_link_idx(pe: PersonEntryView, k: int)
    requires
        links_distinct(pe.links),
        0 <= k < pe.links.len(),
    ensures
        pe.has_link(pe.links[k].city_id),
        pe.link_idx(pe.links[k].city_id) == k,
{
    assert(pe.has_link(pe.links[k].city_id));
    let q = pe.link_idx(pe.links[k].city_id);
    if q != k {
        assert(pe.links[q].city_id != pe.links[k].city_id);
    }
}

impl RegistryView {
    /// Whether some person with address `addr` is registered.
    pub open spec fn has_person(self, addr: Seq<u8>) -> bool {
        exists|p: int| 0 <= p < self.persons.len() && (#[trigger] self.persons[p]).addr == addr
    }

    /// The index of the person with address `addr` (meaningful only when
    /// `has_person(addr)` holds; under well-formedness it is unique).
    pub open spec fn person_idx(self, addr: Seq<u8>) -> int {
        choose|p: int| 0 <= p < self.persons.len() && (#[trigger] self.persons[p]).addr == addr
    }

    /// The forward slots of city `c`.
    pub open spec fn members(self, c: int) -> Seq<Seq<u8>> {
        self.cities[c].members
    }

    /// The counters agree with the arrays they describe.
    pub open spec fn wf_counts(self) -> bool {
        &&& self.config.cities_count == self.cities.len()
        &&& forall|c: int|
            0 <= c < self.cities.len() ==> (#[trigger] self.cities[c]).city.members_count
                == self.cities[c].members.len()
        &&& forall|p: int|
            0 <= p < self.persons.len() ==> (#[trigger] self.persons[p]).person.cities_count
                == self.persons[p].cities.len()
    }

    /// Person addresses are unique.
    pub open spec fn wf_persons_distinct(self) -> bool {
        forall|p1: int, p2: int|
            0 <= p1 < self.persons.len() && 0 <= p2 < self.persons.len() && p1 != p2
                ==> (#[trigger] self.persons[p1]).addr != (#[trigger] self.persons[p2]).addr
    }

    /// Both positions recorded in a link really hold this relation.
    pub open spec fn link_ok(self, p: int, l: CityLink) -> bool {
        &&& l.city_id < self.cities.len()
        &&& l.person_in_city < self.cities[l.city_id as int].members.len()
        &&& self.cities[l.city_id as int].members[l.person_in_city as int] == self.persons[p].addr
        &&& l.city_in_person < self.persons[p].cities.len()
        &&& self.persons[p].cities[l.city_in_person as int] == l.city_id
    }

    /// Every link of every person is consistent with the two slot arrays.
    pub open spec fn wf_links(self) -> bool {
        forall|p: int, k: int|
            0 <= p < self.persons.len() && 0 <= k < self.persons[p].links.len()
                ==> self.link_ok(p, #[trigger] self.persons[p].links[k])
    }

    /// A person holds at most one link per city.
    pub open spec fn wf_links_distinct(self) -> bool {
        forall|p: int|
            0 <= p < self.persons.len() ==> links_distinct((#[trigger] self.persons[p]).links)
    }

    /// Every forward slot is covered by a link pointing back at it.
    pub open spec fn wf_fwd_covered(self) -> bool {
        forall|c: int, s: int|
            #![trigger self.cities[c].members[s]]
            #![trigger fwd_covered_at(self.persons, c, s)]
            0 <= c < self.cities.len() && 0 <= s < self.cities[c].members.len()
                ==> fwd_covered_at(self.persons, c, s)
    }

    /// Every reverse slot is covered by a link pointing back at it.
    pub open spec fn wf_rev_covered(self) -> bool {
        forall|p: int, j: int|
            #![trigger self.persons[p].cities[j]]
            #![trigger rev_covered_at(self.persons[p], j)]
            0 <= p < self.persons.len() && 0 <= j < self.persons[p].cities.len()
                ==> rev_covered_at(self.persons[p], j)
    }

    /// The well-formedness invariant of the registry: the four structural
    /// invariants of the membership index.
    pub open spec fn wf(self) -> bool {
        &&& self.wf_counts()
        &&& self.wf_persons_distinct()
        &&& self.wf_links()
        &&& self.wf_links_distinct()
        &&& self.wf_fwd_covered()
        &&& self.wf_rev_covered()
    }
}

/// When addresses are unique, `person_idx` is the index of any person whose
/// address matches.
pub proof fn lemma_person_idx_unique(s: RegistryView, p: int)
    requires
        s.wf_persons_distinct(),
        0 <= p < s.persons.len(),
    ensures
        s.has_person(s.persons[p].addr),
        s.person_idx(s.persons[p].addr) == p,
{
    assert(s.has_person(s.persons[p].addr));
    let q = s.person_idx(s.persons[p].addr);
    if q != p {
        assert(s.persons[q].addr != s.persons[p].addr);
    }
}

/// When a person's links carry distinct city ids, `link_idx` is the index of
/// any link whose city matches.
pub proof fn lemma_link_idx_unique(s: RegistryView, p: int, k: int)
    requires
        s.wf_links_distinct(),
        0 <= p < s.persons.len(),
        0 <= k < s.persons[p].links.len(),
    ensures
        s.persons[p].has_link(s.persons[p].links[k].city_id),
        s.persons[p].link_idx(s.persons[p].links[k].city_id) == k,
{
    let pe = s.persons[p];
    assert(pe.has_link(pe.links[k].city_id));
    let q = pe.link_idx(pe.links[k].city_id);
    if q != k {
        assert(s.persons[p].links[q].city_id != s.persons[p].links[k].city_id);
    }
}

/// Well-formedness only looks at the two tables and the city counter: it
/// carries over to any state that agrees on those.
pub proof fn lemma_wf_same_tables(s1: RegistryView, s2: RegistryView)
    requires
        s1.wf(),
        s2.persons == s1.persons,
        s2.cities == s1.cities,
        s2.config.cities_count == s1.config.cities_count,
    ensures
        s2.wf(),
{
    assert forall|c: int, s: int| #![trigger fwd_covered_at(s2.persons, c, s)]
        0 <= c < s2.cities.len() && 0 <= s < s2.cities[c].members.len() implies fwd_covered_at(
        s2.persons,
        c,
        s,
    ) by {
        assert(fwd_covered_at(s1.persons, c, s));
    }
    assert forall|p: int, j: int| #![trigger rev_covered_at(s2.persons[p], j)]
        0 <= p < s2.persons.len() && 0 <= j < s2.persons[p].cities.len() implies rev_covered_at(
        s2.persons[p],
        j,
    ) by {
        assert(rev_covered_at(s1.persons[p], j));
    }
}

/// Forward coverage carries over to any person table whose links extend the
/// old ones.
pub proof fn lemma_fwd_transfer(
    persons1: Seq<PersonEntryView>,
    persons2: Seq<PersonEntryView>,
    c: int,
    s: int,
)
    requires
        fwd_covered_at(persons1, c, s),
        persons2.len() >= persons1.len(),
        forall|p: int|
            0 <= p < persons1.len() ==> (#[trigger] persons2[p]).links.len()
                >= persons1[p].links.len(),
        forall|p: int, k: int|
            0 <= p < persons1.len() && 0 <= k < persons1[p].links.len()
                ==> (#[trigger] persons2[p].links[k]) == persons1[p].links[k],
    ensures
        fwd_covered_at(persons2, c, s),
{
    let pk = fwd_link_of(persons1, c, s);
    assert(persons2[pk.0].links[pk.1] == persons1[pk.0].links[pk.1]);
    lemma_fwd_covered_intro(persons2, c, s, pk.0, pk.1);
}

/// Reverse coverage carries over to any person entry whose links extend the
/// old ones.
pub proof fn lemma_rev_transfer(pe1: PersonEntryView, pe2: PersonEntryView, j: int)
    requires
        rev_covered_at(pe1, j),
        pe2.links.len() >= pe1.links.len(),
        forall|k: int| 0 <= k < pe1.links.len() ==> (#[trigger] pe2.links[k]) == pe1.links[k],
    ensures
        rev_covered_at(pe2, j),
{
    let k = rev_link_of(pe1, j);
    assert(pe2.links[k] == pe1.links[k]);
    lemma_rev_covered_intro(pe2, j, k);
}

/// Appending a city with no members preserves well-formedness.
pub proof fn lemma_wf_push_city(s1: RegistryView, s2: RegistryView, ce: CityEntryView)
    requires
        s1.wf(),
        s2.persons == s1.persons,
        s2.cities == s1.cities.push(ce),
        ce.members.len() == 0,
        ce.city.members_count == 0,
        s2.config.cities_count == s1.config.cities_count + 1,
    ensures
        s2.wf(),
{
    assert forall|c: int|
        0 <= c < s2.cities.len() implies (#[trigger] s2.cities[c]).city.members_count
        == s2.cities[c].members.len() by {
        if c < s1.cities.len() {
            assert(s2.cities[c] == s1.cities[c]);
        }
    }
    assert forall|p: int, k: int|
        0 <= p < s2.persons.len() && 0 <= k < s2.persons[p].links.len() implies s2.link_ok(
        p,
        #[trigger] s2.persons[p].links[k],
    ) by {
        let l = s1.persons[p].links[k];
        assert(s1.link_ok(p, l));
        assert(s2.cities[l.city_id as int] == s1.cities[l.city_id as int]);
    }
    assert forall|c: int, s: int| #![trigger fwd_covered_at(s2.persons, c, s)]
        0 <= c < s2.cities.len() && 0 <= s < s2.cities[c].members.len() implies fwd_covered_at(
        s2.persons,
        c,
        s,
    ) by {
        if c < s1.cities.len() {
            assert(s2.cities[c] == s1.cities[c]);
            assert(fwd_covered_at(s1.persons, c, s));
        } else {
            assert(s2.cities[c] == ce);
        }
    }
    assert forall|p: int, j: int| #![trigger rev_covered_at(s2.persons[p], j)]
        0 <= p < s2.persons.len() && 0 <= j < s2.persons[p].cities.len() implies rev_covered_at(
        s2.persons[p],
        j,
    ) by {
        assert(rev_covered_at(s1.persons[p], j));
    }
}

/// Appending a person with no memberships preserves well-formedness.
pub proof fn lemma_wf_push_person(s1: RegistryView, s2: RegistryView, pe: PersonEntryView)
    requires
        s1.wf(),
        s2.cities == s1.cities,
        s2.persons == s1.persons.push(pe),
        !s1.has_person(pe.addr),
        pe.cities.len() == 0,
        pe.links.len() == 0,
        pe.person.cities_count == 0,
        s2.config.cities_count == s1.config.cities_count,
    ensures
        s2.wf(),
{
    assert forall|p: int|
        0 <= p < s2.persons.len() implies (#[trigger] s2.persons[p]).person.cities_count
        == s2.persons[p].cities.len() by {
        if p < s1.persons.len() {
            assert(s2.persons[p] == s1.persons[p]);
        }
    }
    assert forall|p1: int, p2: int|
        0 <= p1 < s2.persons.len() && 0 <= p2 < s2.persons.len() && p1 != p2 implies (
        #[trigger] s2.persons[p1]).addr != (#[trigger] s2.persons[p2]).addr by {
        if p1 < s1.persons.len() && p2 < s1.persons.len() {
            assert(s2.persons[p1] == s1.persons[p1] && s2.persons[p2] == s1.persons[p2]);
        } else if p1 < s1.persons.len() {
            assert(s2.persons[p2] == pe);
            assert(s1.persons[p1].addr != pe.addr);
        } else {
            assert(s2.persons[p1] == pe);
            assert(s1.persons[p2].addr != pe.addr);
        }
    }
    assert forall|p: int, k: int|
        0 <= p < s2.persons.len() && 0 <= k < s2.persons[p].links.len() implies s2.link_ok(
        p,
        #[trigger] s2.persons[p].links[k],
    ) by {
        assert(p < s1.persons.len());
        let l = s1.persons[p].links[k];
        assert(s1.link_ok(p, l));
        assert(s2.persons[p] == s1.persons[p]);
    }
    assert forall|c: int, s: int| #![trigger fwd_covered_at(s2.persons, c, s)]
        0 <= c < s2.cities.len() && 0 <= s < s2.cities[c].members.len() implies fwd_covered_at(
        s2.persons,
        c,
        s,
    ) by {
        assert(fwd_covered_at(s1.persons, c, s));
        assert forall|p: int|
            0 <= p < s1.persons.len() implies (#[trigger] s2.persons[p]).links
            == s1.persons[p].links by {
            assert(s2.persons[p] == s1.persons[p]);
        }
        lemma_fwd_transfer(s1.persons, s2.persons, c, s);
    }
    assert forall|p: int, j: int| #![trigger rev_covered_at(s2.persons[p], j)]
        0 <= p < s2.persons.len() && 0 <= j < s2.persons[p].cities.len() implies rev_covered_at(
        s2.persons[p],
        j,
    ) by {
        assert(p < s1.persons.len());
        assert(s2.persons[p] == s1.persons[p]);
        assert(rev_covered_at(s1.persons[p], j));
    }
}

/// Changing only a person's metadata (not address, slots, links or counter)
/// preserves well-formedness.
pub proof fn lemma_wf_update_person_meta(s1: RegistryView, s2: RegistryView, pi: int)
    requires
        s1.wf(),
        0 <= pi < s1.persons.len(),
        s2.cities == s1.cities,
        s2.persons.len() == s1.persons.len(),
        forall|p: int|
            0 <= p < s1.persons.len() && p != pi ==> (#[trigger] s2.persons[p]) == s1.persons[p],
        s2.persons[pi].addr == s1.persons[pi].addr,
        s2.persons[pi].cities == s1.persons[pi].cities,
        s2.persons[pi].links == s1.persons[pi].links,
        s2.persons[pi].person.cities_count == s1.persons[pi].person.cities_count,
        s2.config.cities_count == s1.config.cities_count,
    ensures
        s2.wf(),
{
    assert forall|p: int|
        0 <= p < s2.persons.len() implies (#[trigger] s2.persons[p]).person.cities_count
        == s2.persons[p].cities.len() by {
        if p != pi {
            assert(s2.persons[p] == s1.persons[p]);
        }
    }
    assert forall|p1: int, p2: int|
        0 <= p1 < s2.persons.len() && 0 <= p2 < s2.persons.len() && p1 != p2 implies (
        #[trigger] s2.persons[p1]).addr != (#[trigger] s2.persons[p2]).addr by {
        assert(s2.persons[p1].addr == s1.persons[p1].addr);
        assert(s2.persons[p2].addr == s1.persons[p2].addr);
    }
    assert forall|p: int, k: int|
        0 <= p < s2.persons.len() && 0 <= k < s2.persons[p].links.len() implies s2.link_ok(
        p,
        #[trigger] s2.persons[p].links[k],
    ) by {
        assert(s2.persons[p].links == s1.persons[p].links);
        let l = s1.persons[p].links[k];
        assert(s1.link_ok(p, l));
        assert(s2.persons[p].addr == s1.persons[p].addr);
        assert(s2.persons[p].cities == s1.persons[p].cities);
    }
    assert forall|p: int, k1: int, k2: int|
        0 <= p < s2.persons.len() && 0 <= k1 < s2.persons[p].links.len() && 0 <= k2
            < s2.persons[p].links.len() && k1 != k2 implies (#[trigger] s2.persons[p].links[k1]).city_id
        != (#[trigger] s2.persons[p].links[k2]).city_id by {
        assert(s2.persons[p].links == s1.persons[p].links);
    }
    assert forall|c: int, s: int| #![trigger fwd_covered_at(s2.persons, c, s)]
        0 <= c < s2.cities.len() && 0 <= s < s2.cities[c].members.len() implies fwd_covered_at(
        s2.persons,
        c,
        s,
    ) by {
        assert(fwd_covered_at(s1.persons, c, s));
        assert forall|p: int|
            0 <= p < s1.persons.len() implies (#[trigger] s2.persons[p]).links
            == s1.persons[p].links by {}
        lemma_fwd_transfer(s1.persons, s2.persons, c, s);
    }
    assert forall|p: int, j: int| #![trigger rev_covered_at(s2.persons[p], j)]
        0 <= p < s2.persons.len() && 0 <= j < s2.persons[p].cities.len() implies rev_covered_at(
        s2.persons[p],
        j,
    ) by {
        assert(s2.persons[p].cities == s1.persons[p].cities);
        assert(rev_covered_at(s1.persons[p], j));
        lemma_rev_transfer(s1.persons[p], s2.persons[p], j);
    }
}

/// Byte-string equality.
pub fn bytes_eq(a: &Vec<u8>, b: &Vec<u8>) -> (r: bool)
    ensures
        r == (a@ == b@),
{
    if a.len() != b.len() {
        return false;
    }
    let mut i: usize = 0;
    while i < a.len()
        invariant
            0 <= i <= a.len(),
            forall|q: int| 0 <= q < i ==> a@[q] == b@[q],
        decreases a.len() - i,
    {
        if a[i] != b[i] {
            return false;
        }
        i += 1;
    }
    proof {
        assert(a@ =~= b@);
    }
    true
}

/// A fresh copy of a byte string.
pub fn clone_bytes(v: &Vec<u8>) -> (r: Vec<u8>)
    ensures
        r@ == v@,
{
    let mut r: Vec<u8> = Vec::new();
    let mut i: usize = 0;
    while i < v.len()
        invariant
            0 <= i <= v.len(),
            r@ == v@.subrange(0, i as int),
        decreases v.len() - i,
    {
        r.push(v[i]);
        proof {
            assert(r@ =~= v@.subrange(0, i + 1));
        }
        i += 1;
    }
    proof {
        assert(v@.subrange(0, v.len() as int) =~= v@);
    }
    r
}

/// The index of the person with address `addr`, if any.
pub fn find_person(reg: &Registry, addr: &Vec<u8>) -> (r: Option<usize>)
    ensures
        match r {
            Some(p) => p < reg@.persons.len() && reg@.persons[p as int].addr == addr@,
            None => !reg@.has_person(addr@),
        },
{
    let mut p: usize = 0;
    while p < reg.persons.len()
        invariant
            0 <= p <= reg.persons.len(),
            forall|q: int| 0 <= q < p ==> (#[trigger] reg@.persons[q]).addr != addr@,
        decreases reg.persons.len() - p,
    {
        if bytes_eq(&reg.persons[p].addr, addr) {
            return Some(p);
        }
        p += 1;
    }
    None
}

/// The index of this person's link for city `city_id`, if any.
pub fn find_link(links: &Vec<CityLink>, city_id: u64) -> (r: Option<usize>)
    ensures
        match r {
            Some(k) => k < links@.len() && links@[k as int].city_id == city_id,
            None => forall|k: int| 0 <= k < links@.len() ==> (#[trigger] links@[k]).city_id != city_id,
        },
{
    let mut k: usize = 0;
    while k < links.len()
        invariant
            0 <= k <= links.len(),
            forall|q: int| 0 <= q < k ==> (#[trigger] links@[q]).city_id != city_id,
        decreases links.len() - k,
    {
        if links[k].city_id == city_id {
            return Some(k);
        }
        k += 1;
    }
    None
}

/// The person record stored under `addr`.
pub fn get_person(reg: &Registry, addr: &Vec<u8>) -> (r: Result<Person, ContractError>)
    requires
        reg@.wf(),
    ensures
        match r {
            Ok(p) => reg@.has_person(addr@) && p@ == reg@.persons[reg@.person_idx(addr@)].person,
            Err(e) => !reg@.has_person(addr@) && (e matches ContractError::NotFound { kind }
                && kind@ == "Person"@),
        },
{
    match find_person(reg, addr) {
        Some(p) => {
            proof {
                lemma_person_idx_unique(reg@, p as int);
            }
            let stored = &reg.persons[p].person;
            Ok(
                Person {
                    birthday: stored.birthday,
                    nickname: stored.nickname.clone(),
                    email: match &stored.email {
                        Some(e) => Some(e.clone()),
                        None => None,
                    },
                    cities_count: stored.cities_count,
                },
            )
        },
        None => Err(ContractError::NotFound { kind: "Person".to_owned() }),
    }
}

/// The city record stored under `city_id`.
pub fn get_city(reg: &Registry, city_id: u64) -> (r: Result<City, ContractError>)
    ensures
        match r {
            Ok(c) => city_id < reg@.cities.len() && c@ == reg@.cities[city_id as int].city,
            Err(e) => city_id >= reg@.cities.len() && (e matches ContractError::NotFound { kind }
                && kind@ == "City"@),
        },
{
    if city_id < reg.cities.len() as u64 {
        let stored = &reg.cities[city_id as usize].city;
        Ok(
            City {
                city_name: stored.city_name.clone(),
                power_level: stored.power_level,
                members_count: stored.members_count,
            },
        )
    } else {
        Err(ContractError::NotFound { kind: "City".to_owned() })
    }
}

/// The city id held in reverse slot `index` of the person stored under
/// `addr`.
pub fn get_city_id_by_person(reg: &Registry, addr: &Vec<u8>, index: u64) -> (r: Result<
    u64,
    ContractError,
>)
    requires
        reg@.wf(),
    ensures
        match r {
            Ok(id) => reg@.has_person(addr@) && index
                < reg@.persons[reg@.person_idx(addr@)].cities.len() && id
                == reg@.persons[reg@.person_idx(addr@)].cities[index as int],
            Err(e) => e matches ContractError::NotFound { kind } && if !reg@.has_person(addr@) {
                kind@ == "Person"@
            } else {
                index >= reg@.persons[reg@.person_idx(addr@)].cities.len() && kind@ == "CityId"@
            },
        },
{
    match find_person(reg, addr) {
        Some(p) => {
            proof {
                lemma_person_idx_unique(reg@, p as int);
            }
            let slots = &reg.persons[p].cities;
            if index < slots.len() as u64 {
                Ok(slots[index as usize])
            } else {
                Err(ContractError::NotFound { kind: "CityId".to_owned() })
            }
        },
        None => Err(ContractError::NotFound { kind: "Person".to_owned() }),
    }
}

/// The person address held in forward slot `index` of city `city_id`.
pub fn get_person_address_by_city(reg: &Registry, city_id: u64, index: u64) -> (r: Result<
    Vec<u8>,
    ContractError,
>)
    ensures
        match r {
            Ok(a) => city_id < reg@.cities.len() && index
                < reg@.cities[city_id as int].members.len() && a@
                == reg@.cities[city_id as int].members[index as int],
            Err(e) => e matches ContractError::NotFound { kind } && if city_id
                >= reg@.cities.len() {
                kind@ == "City"@
            } else {
                index >= reg@.cities[city_id as int].members.len() && kind@ == "PersonAddress"@
            },
        },
{
    if city_id < reg.cities.len() as u64 {
        let slots = &reg.cities[city_id as usize].members;
        if index < slots.len() as u64 {
            Ok(clone_bytes(&slots[index as usize]))
        } else {
            Err(ContractError::NotFound { kind: "PersonAddress".to_owned() })
        }
    } else {
        Err(ContractError::NotFound { kind: "City".to_owned() })
    }
}

/// The global configuration record.
pub fn get_storage(reg: &Registry) -> (r: Result<Config, ContractError>)
    ensures
        r matches Ok(config) && config@ == reg@.config,
{
    Ok(
        Config {
            maintainer: clone_bytes(&reg.config.maintainer),
            cities_count: reg.config.cities_count,
        },
    )
}

/// Replaces the global configuration record.
///
/// The city counter doubles as the length of the city table, so a
/// configuration may only be stored when its counter still agrees with it.
pub fn set_storage(reg: &mut Registry, config: &Config) -> (r: Result<(), ContractError>)
    requires
        old(reg)@.wf(),
        config.cities_count == old(reg)@.cities.len(),
    ensures
        final(reg)@.wf(),
        final(reg)@ == (RegistryView { config: config@, ..old(reg)@ }),
        r matches Ok(()),
{
    reg.config.maintainer = clone_bytes(&config.maintainer);
    reg.config.cities_count = config.cities_count;
    proof {
        assert(reg@ =~= (RegistryView { config: config@, ..old(reg)@ }));
        lemma_wf_same_tables(old(reg)@, reg@);
    }
    Ok(())
}

/// Registers a new city under the next fresh dense id.
pub fn create_city(reg: &mut Registry, city_name: String, power_level: u8) -> (r: Result<
    (),
    ContractError,
>)
    requires
        old(reg)@.wf(),
    ensures
        final(reg)@.wf(),
        r matches Ok(()),
        final(reg)@.persons == old(reg)@.persons,
        final(reg)@.cities == old(reg)@.cities.push(
            CityEntryView {
                city: CityView { city_name: city_name@, power_level, members_count: 0 },
                members: Seq::empty(),
            },
        ),
        final(reg)@.config.maintainer == old(reg)@.config.maintainer,
        final(reg)@.config.cities_count == old(reg)@.config.cities_count + 1,
{
    let ghost s1 = reg@;
    reg.cities.push(
        CityEntry {
            city: City { city_name, power_level, members_count: 0 },
            members: Vec::new(),
        },
    );
    reg.config.cities_count = reg.cities.len() as u64;
    proof {
        let ce = CityEntryView {
            city: CityView { city_name: city_name@, power_level, members_count: 0 },
            members: Seq::empty(),
        };
        assert(reg@.cities =~~= s1.cities.push(ce));
        lemma_wf_push_city(s1, reg@, ce);
    }
    Ok(())
}

/// Registers a new person under `addr`, with no memberships yet.
pub fn create_person(
    reg: &mut Registry,
    addr: Vec<u8>,
    birthday: Birthday,
    nickname: String,
    email: Option<String>,
) -> (r: Result<(), ContractError>)
    requires
        old(reg)@.wf(),
    ensures
        final(reg)@.wf(),
        match r {
            Ok(()) => !old(reg)@.has_person(addr@) && final(reg)@.persons == old(
                reg,
            )@.persons.push(
                PersonEntryView {
                    addr: addr@,
                    person: PersonView {
                        birthday,
                        nickname: nickname@,
                        email: crate::utils::opt_string_view(email),
                        cities_count: 0,
                    },
                    cities: Seq::empty(),
                    links: Seq::empty(),
                },
            ) && final(reg)@.cities == old(reg)@.cities && final(reg)@.config == old(reg)@.config,
            Err(e) => old(reg)@.has_person(addr@) && final(reg)@ == old(reg)@ && (e matches
                ContractError::PersonAlreadyRegistered { nickname: n } && n@ == old(
                reg,
            )@.persons[old(reg)@.person_idx(addr@)].person.nickname),
        },
{
    let ghost s1 = reg@;
    match find_person(reg, &addr) {
        Some(p) => {
            proof {
                lemma_person_idx_unique(reg@, p as int);
            }
            Err(ContractError::PersonAlreadyRegistered { nickname: reg.persons[p].person.nickname.clone() })
        },
        None => {
            reg.persons.push(
                PersonEntry {
                    addr,
                    person: Person { birthday, nickname, email, cities_count: 0 },
                    cities: Vec::new(),
                    links: Vec::new(),
                },
            );
            proof {
                let pe = PersonEntryView {
                    addr: addr@,
                    person: PersonView {
                        birthday,
                        nickname: nickname@,
                        email: crate::utils::opt_string_view(email),
                        cities_count: 0,
                    },
                    cities: Seq::empty(),
                    links: Seq::empty(),
                };
                assert(reg@.persons =~~= s1.persons.push(pe));
                lemma_wf_push_person(s1, reg@, pe);
            }
            Ok(())
        },
    }
}

/// Replaces the nickname and email of the person stored under `addr`.
pub fn update_person(
    reg: &mut Registry,
    addr: Vec<u8>,
    nickname: String,
    email: Option<String>,
) -> (r: Result<(), ContractError>)
    requires
        old(reg)@.wf(),
    ensures
        final(reg)@.wf(),
        match r {
            Ok(()) => old(reg)@.has_person(addr@) && {
                let pi = old(reg)@.person_idx(addr@);
                let pe1 = old(reg)@.persons[pi];
                final(reg)@ == (RegistryView {
                    persons: old(reg)@.persons.update(
                        pi,
                        PersonEntryView {
                            person: PersonView {
                                nickname: nickname@,
                                email: crate::utils::opt_string_view(email),
                                ..pe1.person
                            },
                            ..pe1
                        },
                    ),
                    ..old(reg)@
                })
            },
            Err(e) => !old(reg)@.has_person(addr@) && final(reg)@ == old(reg)@ && (e matches
                ContractError::NotFound { kind } && kind@ == "Person"@),
        },
{
    let ghost s1 = reg@;
    match find_person(reg, &addr) {
        Some(p) => {
            proof {
                lemma_person_idx_unique(reg@, p as int);
            }
            let pe = &mut reg.persons[p];
            pe.person.nickname = nickname;
            pe.person.email = email;
            proof {
                let pi = s1.person_idx(addr@);
                let pe1 = s1.persons[pi];
                let pe2 = PersonEntryView {
                    person: PersonView {
                        nickname: nickname@,
                        email: crate::utils::opt_string_view(email),
                        ..pe1.person
                    },
                    ..pe1
                };
                assert(reg@.persons =~~= s1.persons.update(pi, pe2));
                assert(reg@ =~~= (RegistryView { persons: s1.persons.update(pi, pe2), ..s1 }));
                lemma_wf_update_person_meta(s1, reg@, pi);
            }
            Ok(())
        },
        None => Err(ContractError::NotFound { kind: "Person".to_owned() }),
    }
}


/// The exact effect of adding the relation between person `pi` and city `c`:
/// a new forward slot, reverse slot and cross-reference link at the end of
/// their arrays, and both counters up by one. Nothing else changes.
pub open spec fn register_post(s1: RegistryView, s2: RegistryView, pi: int, c: int) -> bool {
    let pe1 = s1.persons[pi];
    let ce1 = s1.cities[c];
    let m = ce1.members.len() as int;
    let n = pe1.cities.len() as int;
    let new_link = CityLink {
        city_id: c as u64,
        person_in_city: m as u64,
        city_in_person: n as u64,
    };
    &&& s2.config == s1.config
    &&& s2.persons == s1.persons.update(
        pi,
        PersonEntryView {
            person: PersonView { cities_count: (n + 1) as u64, ..pe1.person },
            cities: pe1.cities.push(c as u64),
            links: pe1.links.push(new_link),
            ..pe1
        },
    )
    &&& s2.cities == s1.cities.update(
        c,
        CityEntryView {
            city: CityView { members_count: (m + 1) as u64, ..ce1.city },
            members: ce1.members.push(pe1.addr),
        },
    )
}

/// Adding a relation that was not there preserves well-formedness.
pub proof fn lemma_wf_register(s1: RegistryView, s2: RegistryView, pi: int, c: int)
    requires
        s1.wf(),
        0 <= pi < s1.persons.len(),
        0 <= c < s1.cities.len(),
        !s1.persons[pi].has_link(c as u64),
        s1.cities[c].members.len() < u64::MAX,
        s1.persons[pi].cities.len() < u64::MAX,
        register_post(s1, s2, pi, c),
    ensures
        s2.wf(),
{
    let pe1 = s1.persons[pi];
    let ce1 = s1.cities[c];
    let m = ce1.members.len() as int;
    let n = pe1.cities.len() as int;
    let new_link = CityLink {
        city_id: c as u64,
        person_in_city: m as u64,
        city_in_person: n as u64,
    };
    assert(s2.persons[pi].links == pe1.links.push(new_link));
    assert(s2.cities[c].members == ce1.members.push(pe1.addr));

    assert forall|c2: int|
        0 <= c2 < s2.cities.len() implies (#[trigger] s2.cities[c2]).city.members_count
        == s2.cities[c2].members.len() by {
        if c2 != c {
            assert(s2.cities[c2] == s1.cities[c2]);
        }
    }
    assert forall|p: int|
        0 <= p < s2.persons.len() implies (#[trigger] s2.persons[p]).person.cities_count
        == s2.persons[p].cities.len() by {
        if p != pi {
            assert(s2.persons[p] == s1.persons[p]);
        }
    }
    assert forall|p1: int, p2: int|
        0 <= p1 < s2.persons.len() && 0 <= p2 < s2.persons.len() && p1 != p2 implies (
    #[trigger] s2.persons[p1]).addr != (#[trigger] s2.persons[p2]).addr by {
        assert(s2.persons[p1].addr == s1.persons[p1].addr);
        assert(s2.persons[p2].addr == s1.persons[p2].addr);
    }
    assert forall|p: int, k: int|
        0 <= p < s2.persons.len() && 0 <= k < s2.persons[p].links.len() implies s2.link_ok(
        p,
        #[trigger] s2.persons[p].links[k],
    ) by {
        if p == pi && k == pe1.links.len() {
            assert(s2.persons[p].links[k] == new_link);
            assert(s2.cities[c].members[m] == pe1.addr);
            assert(s2.persons[pi].cities[n] == c as u64);
        } else {
            let l = s1.persons[p].links[k];
            assert(s1.link_ok(p, l));
            assert(s2.persons[p].links[k] == l);
            assert(s2.persons[p].addr == s1.persons[p].addr);
            assert(s2.persons[p].cities[l.city_in_person as int]
                == s1.persons[p].cities[l.city_in_person as int]);
            if l.city_id == c {
                assert(s2.cities[c].members[l.person_in_city as int]
                    == ce1.members[l.person_in_city as int]);
            } else {
                assert(s2.cities[l.city_id as int] == s1.cities[l.city_id as int]);
            }
        }
    }
    assert forall|p: int, k1: int, k2: int|
        0 <= p < s2.persons.len() && 0 <= k1 < s2.persons[p].links.len() && 0 <= k2
            < s2.persons[p].links.len() && k1 != k2 implies (
    #[trigger] s2.persons[p].links[k1]).city_id != (#[trigger] s2.persons[p].links[k2]).city_id by {
        if p != pi {
            assert(s2.persons[p].links == s1.persons[p].links);
        } else {
            if k1 < pe1.links.len() && k2 < pe1.links.len() {
                assert(s2.persons[p].links[k1] == pe1.links[k1]);
                assert(s2.persons[p].links[k2] == pe1.links[k2]);
            } else if k1 < pe1.links.len() {
                assert(s2.persons[p].links[k2] == new_link);
                assert(pe1.links[k1].city_id != c as u64);
            } else {
                assert(s2.persons[p].links[k1] == new_link);
                assert(pe1.links[k2].city_id != c as u64);
            }
        }
    }
    assert forall|c2: int, s: int| #![trigger fwd_covered_at(s2.persons, c2, s)]
        0 <= c2 < s2.cities.len() && 0 <= s < s2.cities[c2].members.len() implies fwd_covered_at(
        s2.persons,
        c2,
        s,
    ) by {
        if c2 == c && s == m {
            lemma_fwd_covered_intro(s2.persons, c2, s, pi, pe1.links.len() as int);
        } else {
            if c2 == c {
                assert(s2.cities[c].members.len() == m + 1);
            } else {
                assert(s2.cities[c2] == s1.cities[c2]);
            }
            assert(fwd_covered_at(s1.persons, c2, s));
            lemma_fwd_transfer(s1.persons, s2.persons, c2, s);
        }
    }
    assert forall|p: int, j: int| #![trigger rev_covered_at(s2.persons[p], j)]
        0 <= p < s2.persons.len() && 0 <= j < s2.persons[p].cities.len() implies rev_covered_at(
        s2.persons[p],
        j,
    ) by {
        if p == pi && j == n {
            lemma_rev_covered_intro(s2.persons[p], j, pe1.links.len() as int);
        } else if p == pi {
            assert(rev_covered_at(pe1, j));
            lemma_rev_transfer(pe1, s2.persons[p], j);
        } else {
            assert(s2.persons[p] == s1.persons[p]);
            assert(rev_covered_at(s1.persons[p], j));
        }
    }
}

/// Registers the person stored under `addr` as a member of city `city_id`:
/// the density-preserving insertion at the end of both slot arrays.
pub fn register_in_city(reg: &mut Registry, addr: Vec<u8>, city_id: u64) -> (r: Result<
    (),
    ContractError,
>)
    requires
        old(reg)@.wf(),
    ensures
        final(reg)@.wf(),
        match r {
            Ok(()) => {
                &&& old(reg)@.has_person(addr@)
                &&& city_id < old(reg)@.cities.len()
                &&& !old(reg)@.persons[old(reg)@.person_idx(addr@)].has_link(city_id)
                &&& register_post(
                    old(reg)@,
                    final(reg)@,
                    old(reg)@.person_idx(addr@),
                    city_id as int,
                )
            },
            Err(e) => final(reg)@ == old(reg)@ && match e {
                ContractError::NotFound { kind } => (!old(reg)@.has_person(addr@) && kind@
                    == "Person"@) || (old(reg)@.has_person(addr@) && city_id >= old(
                    reg,
                )@.cities.len() && kind@ == "City"@),
                ContractError::PersonAlreadyRegisteredInCity { nickname, city_name } => {
                    &&& old(reg)@.has_person(addr@)
                    &&& city_id < old(reg)@.cities.len()
                    &&& old(reg)@.persons[old(reg)@.person_idx(addr@)].has_link(city_id)
                    &&& nickname@ == old(
                        reg,
                    )@.persons[old(reg)@.person_idx(addr@)].person.nickname
                    &&& city_name@ == old(reg)@.cities[city_id as int].city.city_name
                },
                _ => false,
            },
        },
{
    let ghost s1 = reg@;
    let p = match find_person(reg, &addr) {
        Some(p) => p,
        None => {
            return Err(ContractError::NotFound { kind: "Person".to_owned() });
        },
    };
    proof {
        lemma_person_idx_unique(reg@, p as int);
    }
    if city_id >= reg.cities.len() as u64 {
        return Err(ContractError::NotFound { kind: "City".to_owned() });
    }
    let c = city_id as usize;
    match find_link(&reg.persons[p].links, city_id) {
        Some(k) => {
            proof {
                assert(s1.persons[p as int].links[k as int].city_id == city_id);
            }
            return Err(
                ContractError::PersonAlreadyRegisteredInCity {
                    nickname: reg.persons[p].person.nickname.clone(),
                    city_name: reg.cities[c].city.city_name.clone(),
                },
            );
        },
        None => {},
    }
    let m = reg.cities[c].city.members_count;
    let n = reg.persons[p].person.cities_count;
    let ce = &mut reg.cities[c];
    ce.members.push(addr);
    ce.city.members_count = ce.members.len() as u64;
    let pe = &mut reg.persons[p];
    pe.cities.push(city_id);
    pe.links.push(CityLink { city_id, person_in_city: m, city_in_person: n });
    pe.person.cities_count = pe.cities.len() as u64;
    proof {
        let pi = p as int;
        let ci = c as int;
        let pe1 = s1.persons[pi];
        let ce1 = s1.cities[ci];
        assert(reg@.cities =~~= s1.cities.update(
            ci,
            CityEntryView {
                city: CityView {
                    members_count: (ce1.members.len() + 1) as u64,
                    ..ce1.city
                },
                members: ce1.members.push(addr@),
            },
        ));
        assert(reg@.persons =~~= s1.persons.update(
            pi,
            PersonEntryView {
                person: PersonView {
                    cities_count: (pe1.cities.len() + 1) as u64,
                    ..pe1.person
                },
                cities: pe1.cities.push(city_id),
                links: pe1.links.push(
                    CityLink {
                        city_id,
                        person_in_city: ce1.members.len() as u64,
                        city_in_person: pe1.cities.len() as u64,
                    },
                ),
                ..pe1
            },
        ));
        assert(register_post(s1, reg@, pi, ci));
        lemma_wf_register(s1, reg@, pi, ci);
    }
    Ok(())
}


/// The cross-reference link removed when person `pi` leaves city `c`.
pub open spec fn removed_link(s1: RegistryView, pi: int, c: int) -> CityLink {
    s1.persons[pi].link_for(c as u64)
}

/// The address in the last forward slot of city `c`: the member that the
/// removal moves into the freed slot.
pub open spec fn last_member(s1: RegistryView, c: int) -> Seq<u8> {
    s1.cities[c].members[s1.cities[c].members.len() - 1]
}

/// The index of the person occupying the last forward slot of city `c`.
pub open spec fn moved_person(s1: RegistryView, c: int) -> int {
    s1.person_idx(last_member(s1, c))
}

/// The city id in the last reverse slot of person `pi`: the city that the
/// removal moves into the freed slot.
pub open spec fn last_city(s1: RegistryView, pi: int) -> u64 {
    s1.persons[pi].cities[s1.persons[pi].cities.len() - 1]
}

/// Person table after the forward-array compaction step of a removal: the
/// person occupying the last forward slot of city `c` gets that link's
/// forward position changed to the freed position. When the freed position is
/// already the last one this is the identity.
pub open spec fn fwd_fixed_persons(s1: RegistryView, pi: int, c: int) -> Seq<PersonEntryView> {
    let l = removed_link(s1, pi, c);
    let lpi = moved_person(s1, c);
    let lpe = s1.persons[lpi];
    let k3 = lpe.link_idx(c as u64);
    let l3 = lpe.links[k3];
    s1.persons.update(
        lpi,
        PersonEntryView {
            links: lpe.links.update(k3, CityLink { person_in_city: l.person_in_city, ..l3 }),
            ..lpe
        },
    )
}

/// Person table after both compaction steps of a removal: the leaving
/// person's link for the city in the last reverse slot gets that link's
/// reverse position changed to the freed position. When the freed position is
/// already the last one this second step is the identity.
pub open spec fn rev_fixed_persons(s1: RegistryView, pi: int, c: int) -> Seq<PersonEntryView> {
    let l = removed_link(s1, pi, c);
    let persons_a = fwd_fixed_persons(s1, pi, c);
    let pe1 = s1.persons[pi];
    let last_cid = last_city(s1, pi);
    let k2 = pe1.link_idx(last_cid);
    let l2 = pe1.links[k2];
    persons_a.update(
        pi,
        PersonEntryView {
            links: pe1.links.update(k2, CityLink { city_in_person: l.city_in_person, ..l2 }),
            ..pe1
        },
    )
}

/// Person table after the whole removal: compaction, then dropping the
/// now-duplicate trailing reverse slot, the cross-reference link, and one
/// from the counter.
pub open spec fn remove_result_persons(s1: RegistryView, pi: int, c: int) -> Seq<PersonEntryView> {
    let l = removed_link(s1, pi, c);
    let j = l.city_in_person as int;
    let k = s1.persons[pi].link_idx(c as u64);
    let persons_b = rev_fixed_persons(s1, pi, c);
    let pe_b = persons_b[pi];
    let pe1 = s1.persons[pi];
    let n = pe1.cities.len() as int;
    let last_cid = last_city(s1, pi);
    persons_b.update(
        pi,
        PersonEntryView {
            person: PersonView { cities_count: (n - 1) as u64, ..pe1.person },
            cities: pe1.cities.update(j, last_cid).drop_last(),
            links: pe_b.links.remove(k),
            ..pe1
        },
    )
}

/// Forward slots of city `c` after the removal: the last slot moved into the
/// freed position, then the trailing duplicate dropped.
pub open spec fn remove_result_members(s1: RegistryView, pi: int, c: int) -> Seq<Seq<u8>> {
    let l = removed_link(s1, pi, c);
    let i = l.person_in_city as int;
    let members = s1.cities[c].members;
    members.update(i, members[members.len() - 1]).drop_last()
}

/// The exact effect of removing the relation between person `pi` and city
/// `c`: the density-preserving swap-deletion on both slot arrays, the
/// cross-reference link gone, and both counters down by one. Nothing else
/// changes.
pub open spec fn remove_post(s1: RegistryView, s2: RegistryView, pi: int, c: int) -> bool {
    let ce1 = s1.cities[c];
    let m = ce1.members.len() as int;
    &&& s2.config == s1.config
    &&& s2.persons == remove_result_persons(s1, pi, c)
    &&& s2.cities == s1.cities.update(
        c,
        CityEntryView {
            city: CityView { members_count: (m - 1) as u64, ..ce1.city },
            members: remove_result_members(s1, pi, c),
        },
    )
}

/// At most one link points at a given forward slot.
pub proof fn lemma_fwd_cover_unique(
    s: RegistryView,
    c: int,
    sl: int,
    p1: int,
    k1: int,
    p2: int,
    k2: int,
)
    requires
        s.wf(),
        0 <= p1 < s.persons.len(),
        0 <= k1 < s.persons[p1].links.len(),
        0 <= p2 < s.persons.len(),
        0 <= k2 < s.persons[p2].links.len(),
        s.persons[p1].links[k1].city_id == c,
        s.persons[p1].links[k1].person_in_city == sl,
        s.persons[p2].links[k2].city_id == c,
        s.persons[p2].links[k2].person_in_city == sl,
    ensures
        p1 == p2,
        k1 == k2,
{
    assert(s.link_ok(p1, s.persons[p1].links[k1]));
    assert(s.link_ok(p2, s.persons[p2].links[k2]));
    if p1 != p2 {
        assert(s.persons[p1].addr != s.persons[p2].addr);
        assert(false);
    }
    if k1 != k2 {
        assert(links_distinct(s.persons[p1].links));
        assert(s.persons[p1].links[k1].city_id != s.persons[p1].links[k2].city_id);
        assert(false);
    }
}

/// The reverse slots of one person hold pairwise distinct city ids.
pub proof fn lemma_rev_cities_distinct(s: RegistryView, p: int, j1: int, j2: int)
    requires
        s.wf(),
        0 <= p < s.persons.len(),
        0 <= j1 < s.persons[p].cities.len(),
        0 <= j2 < s.persons[p].cities.len(),
        s.persons[p].cities[j1] == s.persons[p].cities[j2],
    ensures
        j1 == j2,
{
    if j1 != j2 {
        assert(rev_covered_at(s.persons[p], j1));
        assert(rev_covered_at(s.persons[p], j2));
        let k1 = rev_link_of(s.persons[p], j1);
        let k2 = rev_link_of(s.persons[p], j2);
        assert(s.link_ok(p, s.persons[p].links[k1]));
        assert(s.link_ok(p, s.persons[p].links[k2]));
        assert(s.persons[p].links[k1].city_id == s.persons[p].cities[j1]);
        assert(s.persons[p].links[k2].city_id == s.persons[p].cities[j2]);
        if k1 != k2 {
            assert(links_distinct(s.persons[p].links));
            assert(s.persons[p].links[k1].city_id != s.persons[p].links[k2].city_id);
        }
        assert(false);
    }
}

/// The forward slots of one city hold pairwise distinct addresses.
pub proof fn lemma_members_distinct(s: RegistryView, c: int, s1p: int, s2p: int)
    requires
        s.wf(),
        0 <= c < s.cities.len(),
        0 <= s1p < s.cities[c].members.len(),
        0 <= s2p < s.cities[c].members.len(),
        s.cities[c].members[s1p] == s.cities[c].members[s2p],
    ensures
        s1p == s2p,
{
    if s1p != s2p {
        assert(fwd_covered_at(s.persons, c, s1p));
        assert(fwd_covered_at(s.persons, c, s2p));
        let pk1 = fwd_link_of(s.persons, c, s1p);
        let pk2 = fwd_link_of(s.persons, c, s2p);
        assert(s.link_ok(pk1.0, s.persons[pk1.0].links[pk1.1]));
        assert(s.link_ok(pk2.0, s.persons[pk2.0].links[pk2.1]));
        if pk1.0 != pk2.0 {
            assert(s.persons[pk1.0].addr != s.persons[pk2.0].addr);
            assert(false);
        }
        if pk1.1 != pk2.1 {
            assert(links_distinct(s.persons[pk1.0].links));
            assert(s.persons[pk1.0].links[pk1.1].city_id != s.persons[pk2.0].links[pk2.1].city_id);
            assert(false);
        }
        assert(false);
    }
}


/// The facts the removal algorithm relies on, about the removed link, the
/// member moved forward, and the city moved backward.
pub proof fn lemma_remove_shape(s1: RegistryView, pi: int, c: int)
    requires
        s1.wf(),
        0 <= pi < s1.persons.len(),
        0 <= c < s1.cities.len(),
        s1.persons[pi].has_link(c as u64),
    ensures
        0 <= s1.persons[pi].link_idx(c as u64) < s1.persons[pi].links.len(),
        removed_link(s1, pi, c).city_id == c,
        0 <= removed_link(s1, pi, c).person_in_city < s1.cities[c].members.len(),
        s1.cities[c].members[removed_link(s1, pi, c).person_in_city as int]
            == s1.persons[pi].addr,
        0 <= removed_link(s1, pi, c).city_in_person < s1.persons[pi].cities.len(),
        s1.persons[pi].cities[removed_link(s1, pi, c).city_in_person as int] == c,
        0 <= moved_person(s1, c) < s1.persons.len(),
        s1.persons[moved_person(s1, c)].addr == last_member(s1, c),
        s1.persons[moved_person(s1, c)].has_link(c as u64),
        ({
            let lpe = s1.persons[moved_person(s1, c)];
            let l3 = lpe.links[lpe.link_idx(c as u64)];
            &&& 0 <= lpe.link_idx(c as u64) < lpe.links.len()
            &&& l3.city_id == c
            &&& l3.person_in_city == s1.cities[c].members.len() - 1
            &&& 0 <= l3.city_in_person < lpe.cities.len()
            &&& lpe.cities[l3.city_in_person as int] == c
        }),
        s1.persons[pi].has_link(last_city(s1, pi)),
        ({
            let pe1 = s1.persons[pi];
            let l2 = pe1.links[pe1.link_idx(last_city(s1, pi))];
            &&& 0 <= pe1.link_idx(last_city(s1, pi)) < pe1.links.len()
            &&& l2.city_id == last_city(s1, pi)
            &&& l2.city_in_person == pe1.cities.len() - 1
            &&& s1.link_ok(pi, l2)
        }),
        (removed_link(s1, pi, c).person_in_city == s1.cities[c].members.len() - 1) <==> (
        moved_person(s1, c) == pi),
        moved_person(s1, c) == pi ==> s1.persons[moved_person(s1, c)].link_idx(c as u64)
            == s1.persons[pi].link_idx(c as u64),
        (removed_link(s1, pi, c).city_in_person == s1.persons[pi].cities.len() - 1) <==> (
        last_city(s1, pi) == c),
        last_city(s1, pi) == c ==> s1.persons[pi].link_idx(last_city(s1, pi))
            == s1.persons[pi].link_idx(c as u64),
        last_city(s1, pi) != c ==> s1.persons[pi].link_idx(last_city(s1, pi))
            != s1.persons[pi].link_idx(c as u64),
{
    let pe1 = s1.persons[pi];
    let k = pe1.link_idx(c as u64);
    let l = pe1.links[k];
    assert(0 <= k < pe1.links.len() && l.city_id == c);
    assert(s1.link_ok(pi, l));
    let i = l.person_in_city as int;
    let j = l.city_in_person as int;
    let m = s1.cities[c].members.len() as int;
    let n = pe1.cities.len() as int;

    // The occupant of the last forward slot and its link for `c`.
    assert(fwd_covered_at(s1.persons, c, m - 1));
    let pk = fwd_link_of(s1.persons, c, m - 1);
    let l3s = s1.persons[pk.0].links[pk.1];
    assert(s1.link_ok(pk.0, l3s));
    assert(s1.persons[pk.0].addr == last_member(s1, c));
    lemma_person_idx_unique(s1, pk.0);
    let lpi = moved_person(s1, c);
    assert(lpi == pk.0);
    assert(links_distinct(s1.persons[lpi].links));
    lemma_pe_link_idx(s1.persons[lpi], pk.1);
    assert(s1.persons[lpi].link_idx(c as u64) == pk.1);

    // The link of `pi` for the city in its last reverse slot.
    assert(rev_covered_at(pe1, n - 1));
    let kr = rev_link_of(pe1, n - 1);
    let l2s = pe1.links[kr];
    assert(s1.link_ok(pi, l2s));
    assert(l2s.city_id == last_city(s1, pi));
    assert(links_distinct(pe1.links));
    lemma_pe_link_idx(pe1, kr);
    assert(pe1.link_idx(last_city(s1, pi)) == kr);

    // Freed forward slot is last iff the moved member is the leaving person.
    if i == m - 1 {
        assert(last_member(s1, c) == pe1.addr);
        lemma_person_idx_unique(s1, pi);
        assert(lpi == pi);
    }
    if lpi == pi {
        if i != m - 1 {
            lemma_members_distinct(s1, c, i, m - 1);
        }
    }

    // Freed reverse slot is last iff the moved city is `c`.
    if j == n - 1 {
        assert(last_city(s1, pi) == c);
        lemma_pe_link_idx(pe1, k);
    }
    if last_city(s1, pi) == c {
        if j != n - 1 {
            lemma_rev_cities_distinct(s1, pi, j, n - 1);
        }
        lemma_pe_link_idx(pe1, k);
    }
    if last_city(s1, pi) != c {
        assert(pe1.links[kr].city_id != c);
    }
}


/// Removing a relation that was there preserves well-formedness.
#[verifier::rlimit(60)]
pub proof fn lemma_wf_remove(s1: RegistryView, s2: RegistryView, pi: int, c: int)
    requires
        s1.wf(),
        0 <= pi < s1.persons.len(),
        0 <= c < s1.cities.len(),
        s1.persons[pi].has_link(c as u64),
        remove_post(s1, s2, pi, c),
    ensures
        s2.wf(),
{
    lemma_remove_shape(s1, pi, c);
    let pe1 = s1.persons[pi];
    let k = pe1.link_idx(c as u64);
    let l = pe1.links[k];
    let i = l.person_in_city as int;
    let j = l.city_in_person as int;
    let m = s1.cities[c].members.len() as int;
    let n = pe1.cities.len() as int;
    let lpi = moved_person(s1, c);
    let lpe = s1.persons[lpi];
    let k3 = lpe.link_idx(c as u64);
    let l3 = lpe.links[k3];
    let l3n = CityLink { person_in_city: l.person_in_city, ..l3 };
    let last_cid = last_city(s1, pi);
    let k2 = pe1.link_idx(last_cid);
    let l2 = pe1.links[k2];
    let l2n = CityLink { city_in_person: l.city_in_person, ..l2 };
    let links_b = pe1.links.update(k2, l2n);
    let links2 = links_b.remove(k);
    let cities2 = pe1.cities.update(j, last_cid).drop_last();
    let members2 = remove_result_members(s1, pi, c);

    assert(l2n.city_id == last_cid && l2n.person_in_city == l2.person_in_city);
    assert(l3n.city_id == c && l3n.city_in_person == l3.city_in_person);
    assert(k2 == k <==> last_cid == c);
    assert(lpi == pi <==> i == m - 1);
    links_b.remove_ensures(k);
    assert(links2.len() == pe1.links.len() - 1);

    // Elementwise characterization of the new person table.
    let pe2 = s2.persons[pi];
    assert(s2.persons.len() == s1.persons.len());
    assert(pe2.addr == pe1.addr);
    assert(pe2.cities == cities2);
    assert(pe2.links == links2);
    assert(pe2.person.cities_count == n - 1);
    assert(cities2.len() == n - 1);
    assert forall|q: int| 0 <= q < s1.persons.len() && q != pi && q != lpi implies (
    #[trigger] s2.persons[q]) == s1.persons[q] by {}
    if lpi != pi {
        assert(s2.persons[lpi].addr == lpe.addr);
        assert(s2.persons[lpi].person == lpe.person);
        assert(s2.persons[lpi].cities == lpe.cities);
        assert(s2.persons[lpi].links == lpe.links.update(k3, l3n));
    }

    // Elementwise characterization of the new city table.
    assert(s2.cities.len() == s1.cities.len());
    assert forall|c2: int| 0 <= c2 < s1.cities.len() && c2 != c implies (#[trigger] s2.cities[c2])
        == s1.cities[c2] by {}
    assert(s2.cities[c].members == members2);
    assert(s2.cities[c].city.members_count == m - 1);
    assert(s2.cities[c].city.city_name == s1.cities[c].city.city_name);
    assert(members2.len() == m - 1);
    assert forall|sl: int| 0 <= sl < m - 1 && sl != i implies #[trigger] members2[sl]
        == s1.cities[c].members[sl] by {}
    if i < m - 1 {
        assert(members2[i] == last_member(s1, c));
    }

    // Counters still match.
    assert forall|c2: int|
        0 <= c2 < s2.cities.len() implies (#[trigger] s2.cities[c2]).city.members_count
        == s2.cities[c2].members.len() by {
        if c2 != c {
            assert(s2.cities[c2] == s1.cities[c2]);
        }
    }
    assert forall|q: int|
        0 <= q < s2.persons.len() implies (#[trigger] s2.persons[q]).person.cities_count
        == s2.persons[q].cities.len() by {
        if q != pi && q != lpi {
            assert(s2.persons[q] == s1.persons[q]);
        }
    }

    // Addresses unchanged, hence still distinct.
    assert forall|q: int| 0 <= q < s2.persons.len() implies (#[trigger] s2.persons[q]).addr
        == s1.persons[q].addr by {
        if q != pi && q != lpi {
            assert(s2.persons[q] == s1.persons[q]);
        }
    }
    assert forall|p1: int, p2: int|
        0 <= p1 < s2.persons.len() && 0 <= p2 < s2.persons.len() && p1 != p2 implies (
    #[trigger] s2.persons[p1]).addr != (#[trigger] s2.persons[p2]).addr by {
        assert(s2.persons[p1].addr == s1.persons[p1].addr);
        assert(s2.persons[p2].addr == s1.persons[p2].addr);
    }

    // Every link still points at real slots holding this relation.
    assert forall|q: int, kk: int|
        0 <= q < s2.persons.len() && 0 <= kk < s2.persons[q].links.len() implies s2.link_ok(
        q,
        #[trigger] s2.persons[q].links[kk],
    ) by {
        if q == pi {
            let ko = if kk < k {
                kk
            } else {
                kk + 1
            };
            assert(links2[kk] == links_b[ko]);
            assert(ko != k);
            if ko == k2 {
                // The repositioned link for the city from the last reverse slot.
                assert(links2[kk] == l2n);
                assert(last_cid != c);
                assert(j < n - 1);
                assert(s1.link_ok(pi, l2));
                assert(s2.cities[last_cid as int] == s1.cities[last_cid as int]);
                assert(cities2[j] == last_cid);
            } else {
                let lo = pe1.links[ko];
                assert(links2[kk] == lo);
                assert(s1.link_ok(pi, lo));
                assert(links_distinct(pe1.links));
                assert(lo.city_id != c);
                assert(lo.city_id != last_cid || k2 == k);
                assert(s2.cities[lo.city_id as int] == s1.cities[lo.city_id as int]);
                let jj = lo.city_in_person as int;
                assert(pe1.cities[jj] == lo.city_id);
                assert(jj != j);
                if jj == n - 1 {
                    assert(pe1.cities[n - 1] == last_cid);
                    assert(lo.city_id == last_cid);
                    assert(k2 == k);
                    assert(last_cid == c);
                    assert(false);
                }
                assert(cities2[jj] == pe1.cities[jj]);
            }
        } else if q == lpi {
            // lpi != pi here, so the freed slot is not the last one.
            assert(i < m - 1);
            if kk == k3 {
                assert(s2.persons[q].links[kk] == l3n);
                assert(members2[i] == last_member(s1, c));
                assert(s2.persons[lpi].addr == last_member(s1, c));
                assert(s1.link_ok(lpi, l3));
                assert(s2.persons[lpi].cities == lpe.cities);
            } else {
                let lo = lpe.links[kk];
                assert(s2.persons[q].links[kk] == lo);
                assert(s1.link_ok(lpi, lo));
                assert(links_distinct(lpe.links));
                assert(lo.city_id != c);
                assert(s2.cities[lo.city_id as int] == s1.cities[lo.city_id as int]);
            }
        } else {
            assert(s2.persons[q] == s1.persons[q]);
            let lo = s1.persons[q].links[kk];
            assert(s1.link_ok(q, lo));
            if lo.city_id == c {
                let sl = lo.person_in_city as int;
                if sl == i {
                    lemma_fwd_cover_unique(s1, c, sl, q, kk, pi, k);
                    assert(false);
                }
                if sl == m - 1 {
                    lemma_fwd_cover_unique(s1, c, sl, q, kk, lpi, k3);
                    assert(false);
                }
                assert(members2[sl] == s1.cities[c].members[sl]);
            } else {
                assert(s2.cities[lo.city_id as int] == s1.cities[lo.city_id as int]);
            }
        }
    }

    // City ids in one person's links stay distinct.
    assert forall|q: int|
        0 <= q < s2.persons.len() implies links_distinct((#[trigger] s2.persons[q]).links) by {
        if q == pi {
            assert forall|d1: int, d2: int|
                0 <= d1 < links2.len() && 0 <= d2 < links2.len() && d1 != d2 implies (
            #[trigger] links2[d1]).city_id != (#[trigger] links2[d2]).city_id by {
                let o1 = if d1 < k {
                    d1
                } else {
                    d1 + 1
                };
                let o2 = if d2 < k {
                    d2
                } else {
                    d2 + 1
                };
                assert(links2[d1] == links_b[o1]);
                assert(links2[d2] == links_b[o2]);
                assert(links_b[o1].city_id == pe1.links[o1].city_id);
                assert(links_b[o2].city_id == pe1.links[o2].city_id);
                assert(links_distinct(pe1.links));
                assert(pe1.links[o1].city_id != pe1.links[o2].city_id);
            }
        } else if q == lpi {
            assert forall|d1: int, d2: int|
                0 <= d1 < s2.persons[q].links.len() && 0 <= d2 < s2.persons[q].links.len() && d1
                    != d2 implies (#[trigger] s2.persons[q].links[d1]).city_id != (
            #[trigger] s2.persons[q].links[d2]).city_id by {
                assert(s2.persons[q].links[d1].city_id == lpe.links[d1].city_id);
                assert(s2.persons[q].links[d2].city_id == lpe.links[d2].city_id);
                assert(links_distinct(lpe.links));
                assert(lpe.links[d1].city_id != lpe.links[d2].city_id);
            }
        } else {
            assert(s2.persons[q] == s1.persons[q]);
            assert(links_distinct(s1.persons[q].links));
        }
    }

    // Every forward slot is still covered.
    assert forall|c2: int, sl: int| #![trigger fwd_covered_at(s2.persons, c2, sl)]
        0 <= c2 < s2.cities.len() && 0 <= sl < s2.cities[c2].members.len() implies fwd_covered_at(
        s2.persons,
        c2,
        sl,
    ) by {
        if c2 == c {
            if sl == i && i < m - 1 {
                assert(lpi != pi);
                assert(s2.persons[lpi].links[k3] == l3n);
                lemma_fwd_covered_intro(s2.persons, c2, sl, lpi, k3);
            } else {
                assert(sl < m - 1 && sl != i);
                assert(fwd_covered_at(s1.persons, c, sl));
                let pk = fwd_link_of(s1.persons, c, sl);
                assert(s1.link_ok(pk.0, s1.persons[pk.0].links[pk.1]));
                if pk.0 == pi {
                    assert(links_distinct(pe1.links));
                    assert(pk.1 == k);
                    assert(false);
                }
                if pk.0 == lpi {
                    assert(links_distinct(lpe.links));
                    assert(pk.1 == k3);
                    assert(false);
                }
                assert(s2.persons[pk.0] == s1.persons[pk.0]);
                lemma_fwd_covered_intro(s2.persons, c2, sl, pk.0, pk.1);
            }
        } else {
            assert(s2.cities[c2] == s1.cities[c2]);
            assert(fwd_covered_at(s1.persons, c2, sl));
            let pk = fwd_link_of(s1.persons, c2, sl);
            let lo = s1.persons[pk.0].links[pk.1];
            if pk.0 == pi {
                assert(links_distinct(pe1.links));
                assert(pk.1 != k);
                let dd = if pk.1 < k {
                    pk.1
                } else {
                    pk.1 - 1
                };
                assert(links2[dd] == links_b[pk.1]);
                if pk.1 == k2 {
                    assert(links2[dd] == l2n);
                    lemma_fwd_covered_intro(s2.persons, c2, sl, pi, dd);
                } else {
                    assert(links2[dd] == lo);
                    lemma_fwd_covered_intro(s2.persons, c2, sl, pi, dd);
                }
            } else if pk.0 == lpi {
                if pk.1 == k3 {
                    assert(lo.city_id == c);
                    assert(false);
                }
                assert(s2.persons[lpi].links[pk.1] == lo);
                lemma_fwd_covered_intro(s2.persons, c2, sl, lpi, pk.1);
            } else {
                assert(s2.persons[pk.0] == s1.persons[pk.0]);
                lemma_fwd_covered_intro(s2.persons, c2, sl, pk.0, pk.1);
            }
        }
    }

    // Every reverse slot is still covered.
    assert forall|q: int, jj: int| #![trigger rev_covered_at(s2.persons[q], jj)]
        0 <= q < s2.persons.len() && 0 <= jj < s2.persons[q].cities.len() implies rev_covered_at(
        s2.persons[q],
        jj,
    ) by {
        if q == pi {
            assert(s2.persons[q].cities.len() == n - 1);
            if jj == j && j < n - 1 {
                assert(last_cid != c);
                assert(k2 != k);
                let dd = if k2 < k {
                    k2
                } else {
                    k2 - 1
                };
                assert(links2[dd] == links_b[k2]);
                assert(links2[dd] == l2n);
                assert(l2n.city_in_person == j);
                lemma_rev_covered_intro(s2.persons[q], jj, dd);
            } else {
                assert(jj < n - 1 && jj != j);
                assert(rev_covered_at(pe1, jj));
                let kr = rev_link_of(pe1, jj);
                let lo = pe1.links[kr];
                assert(s1.link_ok(pi, lo));
                assert(kr != k);
                if kr == k2 {
                    assert(l2.city_in_person == n - 1);
                    assert(jj == n - 1);
                    assert(false);
                }
                let dd = if kr < k {
                    kr
                } else {
                    kr - 1
                };
                assert(links2[dd] == links_b[kr]);
                assert(links2[dd] == lo);
                lemma_rev_covered_intro(s2.persons[q], jj, dd);
            }
        } else if q == lpi {
            assert(s2.persons[q].cities == lpe.cities);
            assert(rev_covered_at(lpe, jj));
            let kr = rev_link_of(lpe, jj);
            if kr == k3 {
                assert(s2.persons[q].links[kr] == l3n);
                assert(l3n.city_in_person == l3.city_in_person);
                lemma_rev_covered_intro(s2.persons[q], jj, kr);
            } else {
                assert(s2.persons[q].links[kr] == lpe.links[kr]);
                lemma_rev_covered_intro(s2.persons[q], jj, kr);
            }
        } else {
            assert(s2.persons[q] == s1.persons[q]);
            assert(rev_covered_at(s1.persons[q], jj));
        }
    }
}


/// Removes the person stored under `addr` from city `city_id`: the
/// density-preserving swap-deletion.
///
/// The member in the last forward slot of the city moves into the freed slot,
/// the city in the last reverse slot of the person moves into the freed slot,
/// the cross-reference entries of the moved member and the moved city are
/// repositioned, and the now-duplicate trailing slots, the removed link and
/// one of each counter go away.
#[verifier::rlimit(100)]
pub fn unregister_from_city(reg: &mut Registry, addr: Vec<u8>, city_id: u64) -> (r: Result<
    (),
    ContractError,
>)
    requires
        old(reg)@.wf(),
    ensures
        final(reg)@.wf(),
        match r {
            Ok(()) => {
                &&& old(reg)@.has_person(addr@)
                &&& city_id < old(reg)@.cities.len()
                &&& old(reg)@.persons[old(reg)@.person_idx(addr@)].has_link(city_id)
                &&& remove_post(
                    old(reg)@,
                    final(reg)@,
                    old(reg)@.person_idx(addr@),
                    city_id as int,
                )
            },
            Err(e) => final(reg)@ == old(reg)@ && (e matches ContractError::NotFound { kind }
                && if !old(reg)@.has_person(addr@) {
                kind@ == "Person"@
            } else if city_id >= old(reg)@.cities.len() {
                kind@ == "City"@
            } else {
                !old(reg)@.persons[old(reg)@.person_idx(addr@)].has_link(city_id) && kind@
                    == "CityLink"@
            }),
        },
{
    let ghost s1 = reg@;
    let p = match find_person(reg, &addr) {
        Some(p) => p,
        None => {
            return Err(ContractError::NotFound { kind: "Person".to_owned() });
        },
    };
    proof {
        lemma_person_idx_unique(reg@, p as int);
    }
    if city_id >= reg.cities.len() as u64 {
        return Err(ContractError::NotFound { kind: "City".to_owned() });
    }
    let c = city_id as usize;
    let ghost pi = p as int;
    let ghost ci = c as int;
    let k = match find_link(&reg.persons[p].links, city_id) {
        Some(k) => k,
        None => {
            return Err(ContractError::NotFound { kind: "CityLink".to_owned() });
        },
    };
    proof {
        lemma_link_idx_unique(reg@, pi, k as int);
        lemma_remove_shape(s1, pi, ci);
    }
    let l = reg.persons[p].links[k];
    let i = l.person_in_city;
    let j = l.city_in_person;
    let m = reg.cities[c].members.len();
    let n = reg.persons[p].cities.len();
    let ghost le = removed_link(s1, pi, ci);
    let ghost pe1 = s1.persons[pi];
    proof {
        assert(le == l);
        assert(s1.cities[ci].members.len() == m);
        assert(pe1.cities.len() == n);
        assert((i as int) < m && (j as int) < n);
    }

    // Compact the forward array: move the member in the last slot into the
    // freed slot and repoint its cross-reference.
    if (i as usize) + 1 < m {
        let last_addr = clone_bytes(&reg.cities[c].members[m - 1]);
        proof {
            assert(last_addr@ == last_member(s1, ci));
        }
        let lp = match find_person(reg, &last_addr) {
            Some(lp) => lp,
            None => {
                proof {
                    assert(s1.has_person(last_member(s1, ci)));
                    assert(false);
                }
                return Err(ContractError::NotFound { kind: "Person".to_owned() });
            },
        };
        proof {
            lemma_person_idx_unique(s1, lp as int);
            assert(lp as int == moved_person(s1, ci));
        }
        let k3 = match find_link(&reg.persons[lp].links, city_id) {
            Some(k3) => k3,
            None => {
                proof {
                    assert(s1.persons[moved_person(s1, ci)].has_link(city_id));
                    assert(false);
                }
                return Err(ContractError::NotFound { kind: "CityLink".to_owned() });
            },
        };
        proof {
            assert(links_distinct(s1.persons[lp as int].links));
            lemma_pe_link_idx(s1.persons[lp as int], k3 as int);
        }
        let moved = reg.persons[lp].links[k3];
        let lpe = &mut reg.persons[lp];
        lpe.links[k3] = CityLink {
            city_id,
            person_in_city: i,
            city_in_person: moved.city_in_person,
        };
        let ce = &mut reg.cities[c];
        ce.members[i as usize] = last_addr;
        proof {
            assert(reg@.persons =~~= fwd_fixed_persons(s1, pi, ci));
            assert(reg@.cities[ci].members =~~= s1.cities[ci].members.update(
                i as int,
                last_member(s1, ci),
            ));
        }
    } else {
        proof {
            assert(i == m - 1);
            assert(moved_person(s1, ci) == pi);
            assert(pe1.links.update(pe1.link_idx(c as u64), le) =~= pe1.links);
            assert((PersonEntryView {
                links: pe1.links.update(pe1.link_idx(c as u64), le),
                ..pe1
            }) =~= pe1);
            assert(fwd_fixed_persons(s1, pi, ci) =~= s1.persons);
            assert(reg@.persons == fwd_fixed_persons(s1, pi, ci));
            assert(s1.cities[ci].members.update(i as int, last_member(s1, ci))
                =~= s1.cities[ci].members);
            assert(reg@.cities[ci].members == s1.cities[ci].members.update(
                i as int,
                last_member(s1, ci),
            ));
        }
    }
    let ghost persons_a = fwd_fixed_persons(s1, pi, ci);
    let ghost members_a = s1.cities[ci].members.update(i as int, last_member(s1, ci));
    proof {
        assert(reg@.persons == persons_a);
        assert(reg@.cities[ci].members == members_a);
        assert(reg@.cities[ci].city == s1.cities[ci].city);
        assert forall|c2: int| 0 <= c2 < s1.cities.len() && c2 != ci implies (
        #[trigger] reg@.cities[c2]) == s1.cities[c2] by {}
    }
    let ghost links_b = pe1.links.update(
        pe1.link_idx(last_city(s1, pi)),
        CityLink {
            city_in_person: le.city_in_person,
            ..pe1.links[pe1.link_idx(last_city(s1, pi))]
        },
    );
    let ghost entry_b = PersonEntryView {
        links: links_b,
        cities: pe1.cities.update(j as int, last_city(s1, pi)),
        ..pe1
    };

    // Compact the reverse array symmetrically.
    if (j as usize) + 1 < n {
        let last_cid = reg.persons[p].cities[n - 1];
        proof {
            assert(reg@.persons[pi].cities == pe1.cities);
            assert(last_cid == last_city(s1, pi));
        }
        let k2 = match find_link(&reg.persons[p].links, last_cid) {
            Some(k2) => k2,
            None => {
                proof {
                    assert(reg@.persons[pi].links == pe1.links);
                    assert(s1.persons[pi].has_link(last_city(s1, pi)));
                    assert(false);
                }
                return Err(ContractError::NotFound { kind: "CityLink".to_owned() });
            },
        };
        proof {
            assert(reg@.persons[pi].links == pe1.links);
            assert(links_distinct(pe1.links));
            lemma_pe_link_idx(pe1, k2 as int);
        }
        let moved2 = reg.persons[p].links[k2];
        let pe = &mut reg.persons[p];
        pe.links[k2] = CityLink {
            city_id: last_cid,
            person_in_city: moved2.person_in_city,
            city_in_person: j,
        };
        pe.cities[j as usize] = last_cid;
        proof {
            assert(reg@.persons =~~= persons_a.update(pi, entry_b));
        }
    } else {
        proof {
            assert(j == n - 1);
            assert(last_city(s1, pi) == c as u64);
            let k2s = pe1.link_idx(last_city(s1, pi));
            assert(k2s == pe1.link_idx(c as u64));
            assert(pe1.links[k2s] == le);
            assert((CityLink { city_in_person: le.city_in_person, ..le }) == le);
            assert(links_b =~= pe1.links);
            assert(pe1.cities.update(j as int, last_city(s1, pi)) =~= pe1.cities);
            assert(entry_b =~= pe1);
            assert(persons_a[pi] =~= pe1);
            assert(reg@.persons == persons_a);
            assert(reg@.persons =~~= persons_a.update(pi, entry_b));
        }
    }
    let ghost pv2 = reg@.persons;
    proof {
        assert(pv2 == persons_a.update(pi, entry_b));
    }

    // Drop the now-duplicate trailing slots, the cross-reference link, and
    // one from each counter.
    let pe = &mut reg.persons[p];
    pe.links.remove(k);
    pe.cities.pop();
    pe.person.cities_count = pe.cities.len() as u64;
    let ce = &mut reg.cities[c];
    ce.members.pop();
    ce.city.members_count = ce.members.len() as u64;
    proof {
        let kk = pe1.link_idx(c as u64);
        assert(kk == k as int);
        let entry_final = PersonEntryView {
            person: PersonView { cities_count: (n - 1) as u64, ..pe1.person },
            cities: pe1.cities.update(j as int, last_city(s1, pi)).drop_last(),
            links: links_b.remove(kk),
            ..pe1
        };
        assert(reg@.persons =~~= pv2.update(pi, entry_final));

        let persons_bx = rev_fixed_persons(s1, pi, ci);
        assert(persons_bx == persons_a.update(pi, PersonEntryView { links: links_b, ..pe1 }));
        assert(persons_bx[pi].links == links_b);
        assert(remove_result_persons(s1, pi, ci) == persons_bx.update(
            pi,
            PersonEntryView {
                person: PersonView { cities_count: (n - 1) as u64, ..pe1.person },
                cities: pe1.cities.update(j as int, last_city(s1, pi)).drop_last(),
                links: links_b.remove(kk),
                ..pe1
            },
        ));
        assert(reg@.persons =~~= remove_result_persons(s1, pi, ci));

        assert(reg@.cities[ci].members =~~= members_a.drop_last());
        assert(members_a.drop_last() == remove_result_members(s1, pi, ci));
        assert(reg@.cities =~~= s1.cities.update(
            ci,
            CityEntryView {
                city: CityView {
                    members_count: (s1.cities[ci].members.len() - 1) as u64,
                    ..s1.cities[ci].city
                },
                members: remove_result_members(s1, pi, ci),
            },
        ));
        assert(remove_post(s1, reg@, pi, ci));
        lemma_wf_remove(s1, reg@, pi, ci);
    }
    Ok(())
}

} // verus!

//! Ingestion of streets: candidate ways and associated-street relations,
//! grouping of the ways that make up one street, deduplication by name and
//! containing city, and deterministic document ids.
//!
//! The spatial lookup of a way's containing admin hierarchies is done by
//! the caller, which hands the chains in per way id; everything after that
//! lookup is verified here.

use vstd::prelude::*;
use crate::admin::clone_admin_with_weight;
use crate::osm::{spec_tags_get, OsmCollection, OsmId, OsmRef, OsmRelation, OsmWay};
use crate::places::{Admin, Coord, Street, ZoneType};
use crate::text::{clone_strings, push_dec_signed, str_eq};

verus! {

/// The highway kinds that never form a street document.
pub open spec fn spec_invalid_highway(v: Seq<char>) -> bool {
    v == "bus_guideway"@ || v == "escape"@ || v == "bus_stop"@ || v == "elevator"@
        || v == "platform"@
}

/// A way is a street candidate when it has a usable highway kind and a
/// non-empty name.
pub open spec fn spec_is_valid_way(w: OsmWay) -> bool {
    &&& match spec_tags_get(w.tags.entries@, "highway"@) {
        Some(v) => v.len() > 0 && !spec_invalid_highway(v),
        None => false,
    }
    &&& match spec_tags_get(w.tags.entries@, "name"@) {
        Some(v) => v.len() > 0,
        None => false,
    }
}

pub fn is_valid_way(w: &OsmWay) -> (r: bool)
    ensures
        r == spec_is_valid_way(*w),
{
    let highway_ok = match w.tags.get("highway") {
        Some(v) => {
            v.as_str().unicode_len() > 0 && !str_eq(v.as_str(), "bus_guideway") && !str_eq(
                v.as_str(),
                "escape",
            ) && !str_eq(v.as_str(), "bus_stop") && !str_eq(v.as_str(), "elevator") && !str_eq(
                v.as_str(),
                "platform",
            )
        },
        None => false,
    };
    highway_ok && w.tags.has_nonempty("name")
}

/// A relation is a street candidate when it groups the ways of one street.
pub open spec fn spec_is_street_relation(rel: OsmRelation) -> bool {
    spec_tags_get(rel.tags.entries@, "type"@) == Some("associatedStreet"@)
}

pub fn is_street_relation(rel: &OsmRelation) -> (r: bool)
    ensures
        r == spec_is_street_relation(*rel),
{
    match rel.tags.get("type") {
        Some(v) => str_eq(v.as_str(), "associatedStreet"),
        None => false,
    }
}

/// The coordinate of the first id in `ids` that resolves to a node of the
/// collection, if any.
pub open spec fn spec_first_node_coord(nodes: Seq<crate::osm::OsmNode>, ids: Seq<i64>) -> Option<
    Coord,
>
    decreases ids.len(),
{
    if ids.len() == 0 {
        None
    } else {
        match crate::osm::spec_find_node(nodes, ids[0]) {
            Some(n) => Some(n.coord),
            None => spec_first_node_coord(nodes, ids.skip(1)),
        }
    }
}

/// The coordinate a way stands at: that of the first of its nodes, starting
/// from the middle one, that the collection resolves; the origin exactly
/// when none from the middle on resolves. The middle is used so that ends
/// lying across a boundary do not decide the way's admins.
pub fn way_coord(objs: &OsmCollection, w: &OsmWay) -> (r: Coord)
    ensures
        r == match spec_first_node_coord(
            objs.nodes@,
            w.nodes@.skip((w.nodes@.len() / 2) as int),
        ) {
            Some(c) => c,
            None => Coord { lon_micro: 0, lat_micro: 0 },
        },
{
    let n = w.nodes.len();
    let mut i: usize = n / 2;
    let ghost from_mid = w.nodes@.skip((n / 2) as int);
    proof {
        assert(w.nodes@.skip((n / 2) as int) =~= from_mid);
    }
    while i < n
        invariant
            n / 2 <= i <= n,
            n == w.nodes@.len(),
            from_mid == w.nodes@.skip((n / 2) as int),
            spec_first_node_coord(objs.nodes@, from_mid) == spec_first_node_coord(
                objs.nodes@,
                w.nodes@.skip(i as int),
            ),
        decreases n - i,
    {
        proof {
            assert(w.nodes@.skip(i as int)[0] == w.nodes@[i as int]);
            assert(w.nodes@.skip(i as int).skip(1) =~= w.nodes@.skip(i as int + 1));
        }
        match objs.node(w.nodes[i]) {
            Some(node) => {
                return node.coord;
            },
            None => {},
        }
        i += 1;
    }
    proof {
        assert(w.nodes@.skip(n as int).len() == 0);
    }
    Coord { lon_micro: 0, lat_micro: 0 }
}

/// The name of the city admin a chain runs through: the first member
/// marked as a city.
pub open spec fn spec_city_name(admins: Seq<Admin>) -> Option<Seq<char>>
    decreases admins.len(),
{
    if admins.len() == 0 {
        None
    } else if admins[0].zone_type == Some(ZoneType::City) {
        Some(admins[0].name@)
    } else {
        spec_city_name(admins.skip(1))
    }
}

/// The id of the city admin a chain runs through.
pub open spec fn spec_city_id(admins: Seq<Admin>) -> Option<Seq<char>>
    decreases admins.len(),
{
    if admins.len() == 0 {
        None
    } else if admins[0].zone_type == Some(ZoneType::City) {
        Some(admins[0].id@)
    } else {
        spec_city_id(admins.skip(1))
    }
}

/// The weight of the city admin a chain runs through, or the fallback.
pub open spec fn spec_city_weight(admins: Seq<Admin>, fallback: u64) -> u64
    decreases admins.len(),
{
    if admins.len() == 0 {
        fallback
    } else if admins[0].zone_type == Some(ZoneType::City) {
        admins[0].weight
    } else {
        spec_city_weight(admins.skip(1), fallback)
    }
}

/// The index of the first city admin of a chain.
fn find_city(admins: &Vec<Admin>) -> (r: Option<usize>)
    ensures
        match r {
            Some(j) => j < admins@.len() && admins@[j as int].zone_type == Some(ZoneType::City)
                && spec_city_id(admins@) == Some(admins@[j as int].id@) && spec_city_name(
                admins@,
            ) == Some(admins@[j as int].name@),
            None => spec_city_id(admins@) is None && spec_city_name(admins@) is None,
        },
{
    let mut i: usize = 0;
    proof {
        assert(admins@.skip(0) =~= admins@);
    }
    while i < admins.len()
        invariant
            i <= admins@.len(),
            spec_city_id(admins@) == spec_city_id(admins@.skip(i as int)),
            spec_city_name(admins@) == spec_city_name(admins@.skip(i as int)),
        decreases admins@.len() - i,
    {
        proof {
            assert(admins@.skip(i as int)[0] == admins@[i as int]);
            assert(admins@.skip(i as int).skip(1) =~= admins@.skip(i as int + 1));
        }
        if admins[i].is_city() {
            return Some(i);
        }
        i += 1;
    }
    None
}

/// Two admin lists whose members agree in everything but their weights.
pub open spec fn admin_like(a: Admin, b: Admin) -> bool {
    crate::admin::same_admin_but_weight(a, b) && a.weight == b.weight
}

fn clone_chain(v: &Vec<Admin>) -> (r: Vec<Admin>)
    ensures
        r@.len() == v@.len(),
        forall|i: int| 0 <= i < v@.len() ==> admin_like(v@[i], #[trigger] r@[i]),
{
    let mut r: Vec<Admin> = Vec::new();
    let mut i: usize = 0;
    while i < v.len()
        invariant
            i <= v@.len(),
            r@.len() == i,
            forall|j: int| 0 <= j < i ==> admin_like(v@[j], #[trigger] r@[j]),
        decreases v@.len() - i,
    {
        r.push(clone_admin_with_weight(&v[i], v[i].weight));
        i += 1;
    }
    r
}

/// The chains of containing admin hierarchies the spatial lookup found for
/// each candidate way, keyed by way id.
#[derive(Debug)]
pub struct WayChains {
    pub way_id: i64,
    pub chains: Vec<Vec<Admin>>,
}

#[derive(Debug)]
pub struct WayAdmins {
    pub entries: Vec<WayChains>,
}

/// The chains of the first entry registered for a way, if any.
pub open spec fn spec_chains_of(entries: Seq<WayChains>, way_id: i64) -> Option<Seq<Vec<Admin>>>
    decreases entries.len(),
{
    if entries.len() == 0 {
        None
    } else if entries[0].way_id == way_id {
        Some(entries[0].chains@)
    } else {
        spec_chains_of(entries.skip(1), way_id)
    }
}

impl WayAdmins {
    /// The chains registered for a way, if any; the first entry wins.
    pub fn chains_of(&self, way_id: i64) -> (r: Option<&Vec<Vec<Admin>>>)
        ensures
            match r {
                Some(cs) => spec_chains_of(self.entries@, way_id) == Some(cs@),
                None => spec_chains_of(self.entries@, way_id) is None,
            },
    {
        let mut i: usize = 0;
        proof {
            assert(self.entries@.skip(0) =~= self.entries@);
        }
        while i < self.entries.len()
            invariant
                i <= self.entries@.len(),
                spec_chains_of(self.entries@, way_id) == spec_chains_of(
                    self.entries@.skip(i as int),
                    way_id,
                ),
            decreases self.entries@.len() - i,
        {
            proof {
                assert(self.entries@.skip(i as int)[0] == self.entries@[i as int]);
                assert(self.entries@.skip(i as int).skip(1) =~= self.entries@.skip(
                    i as int + 1,
                ));
            }
            if self.entries[i].way_id == way_id {
                return Some(&self.entries[i].chains);
            }
            i += 1;
        }
        None
    }
}

/// The label of a street: its name, with the containing city in
/// parentheses when one is known.
pub open spec fn spec_street_label(name: Seq<char>, admins: Seq<Admin>) -> Seq<char> {
    match spec_city_name(admins) {
        Some(cn) => name + " ("@ + cn + ")"@,
        None => name,
    }
}

/// The zip codes a street inherits: those of the first containing admin
/// that has any.
pub open spec fn spec_inherited_zips(admins: Seq<Admin>) -> Seq<Seq<char>>
    decreases admins.len(),
{
    if admins.len() == 0 {
        Seq::<Seq<char>>::empty()
    } else if admins[0].zip_codes@.len() > 0 {
        admins[0].zip_codes@.map_values(|z: String| z@)
    } else {
        spec_inherited_zips(admins.skip(1))
    }
}

fn inherited_zips(admins: &Vec<Admin>) -> (r: Vec<String>)
    ensures
        r@.map_values(|z: String| z@) == spec_inherited_zips(admins@),
{
    let mut i: usize = 0;
    proof {
        assert(admins@.skip(0) =~= admins@);
    }
    while i < admins.len()
        invariant
            i <= admins@.len(),
            spec_inherited_zips(admins@) == spec_inherited_zips(admins@.skip(i as int)),
        decreases admins@.len() - i,
    {
        proof {
            assert(admins@.skip(i as int)[0] == admins@[i as int]);
            assert(admins@.skip(i as int).skip(1) =~= admins@.skip(i as int + 1));
        }
        if admins[i].zip_codes.len() > 0 {
            return clone_strings(&admins[i].zip_codes);
        }
        i += 1;
    }
    Vec::new()
}

/// The country codes a street inherits: those of the first containing
/// admin that has any.
pub open spec fn spec_inherited_countries(admins: Seq<Admin>) -> Seq<Seq<char>>
    decreases admins.len(),
{
    if admins.len() == 0 {
        Seq::<Seq<char>>::empty()
    } else if admins[0].country_codes@.len() > 0 {
        admins[0].country_codes@.map_values(|z: String| z@)
    } else {
        spec_inherited_countries(admins.skip(1))
    }
}

fn inherited_countries(admins: &Vec<Admin>) -> (r: Vec<String>)
    ensures
        r@.map_values(|z: String| z@) == spec_inherited_countries(admins@),
{
    let mut i: usize = 0;
    proof {
        assert(admins@.skip(0) =~= admins@);
    }
    while i < admins.len()
        invariant
            i <= admins@.len(),
            spec_inherited_countries(admins@) == spec_inherited_countries(
                admins@.skip(i as int),
            ),
        decreases admins@.len() - i,
    {
        proof {
            assert(admins@.skip(i as int)[0] == admins@[i as int]);
            assert(admins@.skip(i as int).skip(1) =~= admins@.skip(i as int + 1));
        }
        if admins[i].country_codes.len() > 0 {
            return clone_strings(&admins[i].country_codes);
        }
        i += 1;
    }
    Vec::new()
}

/// A street document is well formed when its name is non-empty and its
/// label, zip codes and country codes follow the inheritance rules over
/// its own admins.
pub open spec fn street_wf(s: Street) -> bool {
    &&& s.name@.len() > 0
    &&& s.label@ == spec_street_label(s.name@, s.administrative_regions@)
    &&& s.zip_codes@.map_values(|z: String| z@) == spec_inherited_zips(
        s.administrative_regions@,
    )
    &&& s.country_codes@.map_values(|z: String| z@) == spec_inherited_countries(
        s.administrative_regions@,
    )
}

/// The ordering key of an admin chain: the id of its first admin, or the
/// empty sequence for an empty chain.
pub open spec fn spec_chain_key(c: Seq<Admin>) -> Seq<char> {
    if c.len() == 0 {
        Seq::<char>::empty()
    } else {
        c[0].id@
    }
}

/// The order a way's chains are arranged in before suffixes are assigned:
/// by the first admin's id.
pub open spec fn spec_chain_le(a: Seq<Admin>, b: Seq<Admin>) -> bool {
    crate::text::lex_le(spec_chain_key(a), spec_chain_key(b))
}

fn chain_le(a: &Vec<Admin>, b: &Vec<Admin>) -> (r: bool)
    ensures
        r == spec_chain_le(a@, b@),
{
    proof {
        reveal_strlit("");
    }
    let ka: &str = if a.len() == 0 {
        ""
    } else {
        a[0].id.as_str()
    };
    let kb: &str = if b.len() == 0 {
        ""
    } else {
        b[0].id.as_str()
    };
    proof {
        assert(""@ =~= Seq::<char>::empty());
        assert(ka@ == spec_chain_key(a@));
        assert(kb@ == spec_chain_key(b@));
    }
    crate::text::lex_le_str(ka, kb)
}

/// A like-copy of a chain: same length, members equal in every field.
pub open spec fn chain_like(a: Seq<Admin>, b: Seq<Admin>) -> bool {
    a.len() == b.len() && forall|k: int| 0 <= k < a.len() ==> admin_like(a[k], #[trigger] b[k])
}

/// Whether `c` is a like-copy of some chain of `chains`.
pub open spec fn chain_from(chains: Seq<Vec<Admin>>, c: Seq<Admin>) -> bool {
    exists|j: int| 0 <= j < chains.len() && chain_like((#[trigger] chains[j])@, c)
}

/// Whether some chain of `r` is a like-copy of `c`.
pub open spec fn chain_represented(r: Seq<Vec<Admin>>, c: Seq<Admin>) -> bool {
    exists|i: int| 0 <= i < r.len() && chain_like(c, (#[trigger] r[i])@)
}

/// Whether `c` is a like-copy of some chain registered for some way.
pub open spec fn wa_has_chain(wa: Seq<WayChains>, c: Seq<Admin>) -> bool {
    exists|e: int, k: int|
        #![trigger wa[e].chains@[k]]
        0 <= e < wa.len() && 0 <= k < wa[e].chains@.len() && chain_like(wa[e].chains@[k]@, c)
}

proof fn lemma_chain_like_refl(a: Seq<Admin>)
    ensures
        chain_like(a, a),
{
    assert forall|k: int| 0 <= k < a.len() implies admin_like(a[k], #[trigger] a[k]) by {}
}

proof fn lemma_chain_like_trans(a: Seq<Admin>, b: Seq<Admin>, c: Seq<Admin>)
    requires
        chain_like(a, b),
        chain_like(b, c),
    ensures
        chain_like(a, c),
{
    assert forall|k: int| 0 <= k < a.len() implies admin_like(a[k], #[trigger] c[k]) by {
        assert(admin_like(a[k], b[k]));
        assert(admin_like(b[k], c[k]));
    }
}

/// A positive chain lookup names one of the registered entries.
proof fn lemma_chains_of_entry(wa: Seq<WayChains>, wid: i64)
    requires
        spec_chains_of(wa, wid) is Some,
    ensures
        exists|e: int|
            0 <= e < wa.len() && (#[trigger] wa[e]).chains@ == spec_chains_of(wa, wid)->Some_0,
    decreases wa.len(),
{
    if wa.len() > 0 && wa[0].way_id != wid {
        lemma_chains_of_entry(wa.skip(1), wid);
        let e = choose|e: int|
            0 <= e < wa.skip(1).len() && (#[trigger] wa.skip(1)[e]).chains@ == spec_chains_of(
                wa.skip(1),
                wid,
            )->Some_0;
        assert(wa[e + 1].chains@ == spec_chains_of(wa, wid)->Some_0);
    }
}

/// Orders a way's chains by [`spec_chain_le`] with insertion sort, so that
/// suffix assignment is reproducible whatever order the spatial lookup
/// produced them in. Every output chain is a like-copy of an input chain
/// and every input chain has a like-copy in the output.
fn sort_chains(chains: &Vec<Vec<Admin>>) -> (r: Vec<Vec<Admin>>)
    ensures
        r@.len() == chains@.len(),
        forall|a: int, b: int| 0 <= a < b < r@.len() ==> spec_chain_le(r@[a]@, r@[b]@),
        forall|i: int| 0 <= i < r@.len() ==> chain_from(chains@, (#[trigger] r@[i])@),
        forall|j: int| 0 <= j < chains@.len() ==> chain_represented(r@, (#[trigger] chains@[j])@),
{
    let mut r: Vec<Vec<Admin>> = Vec::new();
    let mut i: usize = 0;
    while i < chains.len()
        invariant
            i <= chains@.len(),
            r@.len() == i,
            forall|a: int, b: int| 0 <= a < b < r@.len() ==> spec_chain_le(r@[a]@, r@[b]@),
            forall|a: int| 0 <= a < r@.len() ==> chain_from(chains@, (#[trigger] r@[a])@),
            forall|j: int| 0 <= j < i ==> chain_represented(r@, (#[trigger] chains@[j])@),
        decreases chains@.len() - i,
    {
        let c = clone_chain(&chains[i]);
        proof {
            assert(chain_like(chains@[i as int]@, c@));
        }
        let mut pos: usize = 0;
        while pos < r.len() && chain_le(&r[pos], &c)
            invariant
                pos <= r@.len(),
                forall|x: int| 0 <= x < pos ==> spec_chain_le((#[trigger] r@[x])@, c@),
            decreases r@.len() - pos,
        {
            pos += 1;
        }
        proof {
            if pos < r@.len() {
                crate::text::lemma_lex_le_total(spec_chain_key(r@[pos as int]@), spec_chain_key(c@));
                assert(spec_chain_le(c@, r@[pos as int]@));
            }
        }
        let ghost old_r = r@;
        let ghost cv = c@;
        r.insert(pos, c);
        proof {
            assert forall|a: int, b: int|
                0 <= a < b < r@.len() implies spec_chain_le(r@[a]@, r@[b]@) by {
                if b < pos {
                    assert(r@[a] == old_r[a] && r@[b] == old_r[b]);
                } else if a < pos && b == pos {
                    assert(r@[a] == old_r[a]);
                    assert(spec_chain_le(old_r[a]@, cv));
                } else if a < pos && b > pos {
                    assert(r@[a] == old_r[a] && r@[b] == old_r[b - 1]);
                } else if a == pos {
                    assert(r@[b] == old_r[b - 1]);
                    if b - 1 == pos {
                        assert(spec_chain_le(cv, old_r[pos as int]@));
                    } else {
                        assert(spec_chain_le(cv, old_r[pos as int]@));
                        assert(spec_chain_le(old_r[pos as int]@, old_r[b - 1]@));
                        crate::text::lemma_lex_le_trans(
                            spec_chain_key(cv),
                            spec_chain_key(old_r[pos as int]@),
                            spec_chain_key(old_r[b - 1]@),
                        );
                    }
                } else {
                    assert(r@[a] == old_r[a - 1] && r@[b] == old_r[b - 1]);
                }
            }
            assert forall|a: int|
                0 <= a < r@.len() implies chain_from(chains@, (#[trigger] r@[a])@) by {
                if a < pos {
                    assert(r@[a] == old_r[a]);
                    assert(chain_from(chains@, old_r[a]@));
                    let j = choose|j: int|
                        0 <= j < chains@.len() && chain_like((#[trigger] chains@[j])@, old_r[a]@);
                    assert(chain_like(chains@[j]@, r@[a]@));
                } else if a == pos {
                    assert(chain_like(chains@[i as int]@, r@[a]@));
                } else {
                    assert(r@[a] == old_r[a - 1]);
                    assert(chain_from(chains@, old_r[a - 1]@));
                    let j = choose|j: int|
                        0 <= j < chains@.len() && chain_like(
                            (#[trigger] chains@[j])@,
                            old_r[a - 1]@,
                        );
                    assert(chain_like(chains@[j]@, r@[a]@));
                }
            }
            assert forall|j: int|
                0 <= j < i + 1 implies chain_represented(r@, (#[trigger] chains@[j])@) by {
                if j < i {
                    assert(chain_represented(old_r, chains@[j]@));
                    let a = choose|a: int|
                        0 <= a < old_r.len() && chain_like(chains@[j]@, (#[trigger] old_r[a])@);
                    if a < pos {
                        assert(r@[a] == old_r[a]);
                        assert(chain_like(chains@[j]@, r@[a]@));
                    } else {
                        assert(r@[a + 1] == old_r[a]);
                        assert(chain_like(chains@[j]@, r@[a + 1]@));
                    }
                } else {
                    assert(chain_like(chains@[j]@, r@[pos as int]@));
                }
            }
        }
        i += 1;
    }
    r
}

/// The views of the ids of a street list, in order.
pub open spec fn street_ids(s: Seq<Street>) -> Seq<Seq<char>> {
    s.map_values(|st: Street| st.id@)
}

/// The id stem of a street document: the relation or way scheme followed
/// by the source object's id.
pub open spec fn spec_street_base_id(relation_kind: bool, osm_id: i64) -> Seq<char> {
    (if relation_kind {
        "street:osm:relation:"@
    } else {
        "street:osm:way:"@
    }) + crate::text::dec_digits_signed(osm_id as int)
}

/// The first `n` positionally suffixed ids over a stem.
pub open spec fn spec_suffixed_ids(base: Seq<char>, n: nat) -> Seq<Seq<char>>
    decreases n,
{
    if n == 0 {
        Seq::<Seq<char>>::empty()
    } else {
        spec_suffixed_ids(base, (n - 1) as nat).push(
            base + "-"@ + crate::text::dec_digits((n - 1) as nat),
        )
    }
}

/// The ids of the documents one street emits over `n` admin chains: the
/// bare stem for a single chain, the suffixed ids `-0 .. -(n-1)` otherwise.
pub open spec fn spec_emit_ids(relation_kind: bool, osm_id: i64, n: nat) -> Seq<Seq<char>> {
    let base = spec_street_base_id(relation_kind, osm_id);
    if n == 1 {
        seq![base]
    } else {
        spec_suffixed_ids(base, n)
    }
}

/// Emits one street document per admin chain: the emitted ids are exactly
/// [`spec_emit_ids`] over the chain count, and each document's label, zip
/// codes and country codes are derived from the chain it stores.
fn emit_streets(
    out: &mut Vec<Street>,
    relation_kind: bool,
    osm_id: i64,
    name: &String,
    coord: Coord,
    chains: &Vec<Vec<Admin>>,
)
    requires
        name@.len() > 0,
        forall|i: int| 0 <= i < old(out)@.len() ==> street_wf(#[trigger] old(out)@[i]),
    ensures
        final(out)@.len() == old(out)@.len() + chains@.len(),
        street_ids(final(out)@) == street_ids(old(out)@) + spec_emit_ids(
            relation_kind,
            osm_id,
            chains@.len() as nat,
        ),
        forall|i: int| 0 <= i < final(out)@.len() ==> street_wf(#[trigger] final(out)@[i]),
        forall|i: int| 0 <= i < old(out)@.len() ==> #[trigger] final(out)@[i] == old(out)@[i],
        forall|i: int|
            old(out)@.len() <= i < final(out)@.len() ==> chain_from(
                chains@,
                (#[trigger] final(out)@[i]).administrative_regions@,
            ),
{
    let sorted = sort_chains(chains);
    let ghost base = spec_street_base_id(relation_kind, osm_id);
    let multiple = sorted.len() > 1;
    let mut i: usize = 0;
    while i < sorted.len()
        invariant
            i <= sorted@.len(),
            sorted@.len() == chains@.len(),
            multiple == (sorted@.len() > 1),
            base == spec_street_base_id(relation_kind, osm_id),
            out@.len() == old(out)@.len() + i,
            name@.len() > 0,
            street_ids(out@) =~= street_ids(old(out)@) + (if multiple {
                spec_suffixed_ids(base, i as nat)
            } else if i == 0 {
                Seq::<Seq<char>>::empty()
            } else {
                seq![base]
            }),
            forall|k: int| 0 <= k < out@.len() ==> street_wf(#[trigger] out@[k]),
            forall|k: int| 0 <= k < old(out)@.len() ==> #[trigger] out@[k] == old(out)@[k],
            forall|x: int| 0 <= x < sorted@.len() ==> chain_from(chains@, (#[trigger] sorted@[x])@),
            forall|k: int|
                old(out)@.len() <= k < out@.len() ==> chain_from(
                    chains@,
                    (#[trigger] out@[k]).administrative_regions@,
                ),
        decreases sorted@.len() - i,
    {
        let chain = clone_chain(&sorted[i]);
        proof {
            assert(chain_from(chains@, sorted@[i as int]@));
            let j = choose|j: int|
                0 <= j < chains@.len() && chain_like((#[trigger] chains@[j])@, sorted@[i as int]@);
            lemma_chain_like_trans(chains@[j]@, sorted@[i as int]@, chain@);
            assert(chain_from(chains@, chain@));
        }
        let mut id = if relation_kind {
            String::from_str("street:osm:relation:")
        } else {
            String::from_str("street:osm:way:")
        };
        push_dec_signed(&mut id, osm_id);
        proof {
            assert(id@ == base);
        }
        if multiple {
            proof {
                reveal_strlit("-");
            }
            id.append("-");
            crate::text::push_dec(&mut id, i as u64);
            proof {
                assert(id@ == base + "-"@ + crate::text::dec_digits(i as nat));
            }
        }
        let label = match find_city(&chain) {
            Some(j) => {
                let l = name.clone().concat(" (").concat(chain[j].name.as_str()).concat(")");
                proof {
                    assert(l@ =~= spec_street_label(name@, chain@));
                }
                l
            },
            None => {
                let l = name.clone();
                proof {
                    assert(l@ =~= spec_street_label(name@, chain@));
                }
                l
            },
        };
        let zip_codes = inherited_zips(&chain);
        let country_codes = inherited_countries(&chain);
        let street = Street {
            id,
            name: name.clone(),
            label,
            weight: 0,
            coord,
            zip_codes,
            administrative_regions: chain,
            country_codes,
            distance: None,
        };
        proof {
            assert(street_wf(street));
        }
        let ghost prev = out@;
        let ghost new_id = street.id@;
        out.push(street);
        proof {
            assert(street_ids(out@) =~= street_ids(prev).push(new_id));
            if multiple {
                assert(new_id == base + "-"@ + crate::text::dec_digits(i as nat));
                assert(spec_suffixed_ids(base, (i + 1) as nat) == spec_suffixed_ids(
                    base,
                    i as nat,
                ).push(base + "-"@ + crate::text::dec_digits(i as nat)));
                assert(street_ids(out@) =~= street_ids(old(out)@) + spec_suffixed_ids(
                    base,
                    (i + 1) as nat,
                ));
            } else {
                assert(new_id == base);
                assert(street_ids(out@) =~= street_ids(old(out)@) + seq![base]);
            }
        }
        i += 1;
    }
    proof {
        if sorted@.len() == 1 {
            assert(street_ids(out@) =~= street_ids(old(out)@) + spec_emit_ids(
                relation_kind,
                osm_id,
                chains@.len() as nat,
            ));
        } else {
            assert(street_ids(out@) =~= street_ids(old(out)@) + spec_emit_ids(
                relation_kind,
                osm_id,
                chains@.len() as nat,
            ));
        }
    }
}

/// The name a relation's street carries: the relation's own non-empty
/// name, or else the way's.
pub open spec fn spec_way_name(way: OsmWay) -> Option<Seq<char>> {
    match spec_tags_get(way.tags.entries@, "name"@) {
        Some(n) => if n.len() > 0 {
            Some(n)
        } else {
            None
        },
        None => None,
    }
}

pub open spec fn spec_rel_street_name(rel: OsmRelation, way: OsmWay) -> Option<Seq<char>> {
    match spec_tags_get(rel.tags.entries@, "name"@) {
        Some(n) => if n.len() > 0 {
            Some(n)
        } else {
            spec_way_name(way)
        },
        None => spec_way_name(way),
    }
}

/// The ids an associated-street relation emits, scanning its members: the
/// first street-role way that resolves with a name decides; it emits one
/// document per registered admin chain (none when the way has no chains).
pub open spec fn spec_rel_refs_emit(
    objs: OsmCollection,
    entries: Seq<WayChains>,
    rel: OsmRelation,
    refs: Seq<OsmRef>,
) -> Seq<Seq<char>>
    decreases refs.len(),
{
    if refs.len() == 0 {
        Seq::<Seq<char>>::empty()
    } else {
        let rf = refs[0];
        if rf.role@ == "street"@ {
            match rf.member {
                OsmId::Way(wid) => match crate::osm::spec_find_way(objs.ways@, wid) {
                    Some(way) => match spec_rel_street_name(rel, way) {
                        Some(_) => match spec_chains_of(entries, wid) {
                            Some(cs) => spec_emit_ids(true, rel.id, cs.len()),
                            None => Seq::<Seq<char>>::empty(),
                        },
                        None => spec_rel_refs_emit(objs, entries, rel, refs.skip(1)),
                    },
                    None => spec_rel_refs_emit(objs, entries, rel, refs.skip(1)),
                },
                _ => spec_rel_refs_emit(objs, entries, rel, refs.skip(1)),
            }
        } else {
            spec_rel_refs_emit(objs, entries, rel, refs.skip(1))
        }
    }
}

/// The member ids of every associated-street relation, in reading order.
pub open spec fn spec_relation_members(rels: Seq<OsmRelation>) -> Seq<OsmId>
    decreases rels.len(),
{
    if rels.len() == 0 {
        Seq::<OsmId>::empty()
    } else {
        spec_relation_members(rels.drop_last()) + (if spec_is_street_relation(rels.last()) {
            rels.last().refs@.map_values(|rf: OsmRef| rf.member)
        } else {
            Seq::<OsmId>::empty()
        })
    }
}

/// The ids the relation pass emits over a whole collection, in reading
/// order.
pub open spec fn spec_rel_pass_ids(
    objs: OsmCollection,
    entries: Seq<WayChains>,
    rels: Seq<OsmRelation>,
) -> Seq<Seq<char>>
    decreases rels.len(),
{
    if rels.len() == 0 {
        Seq::<Seq<char>>::empty()
    } else {
        spec_rel_pass_ids(objs, entries, rels.drop_last()) + (if spec_is_street_relation(
            rels.last(),
        ) {
            spec_rel_refs_emit(objs, entries, rels.last(), rels.last().refs@)
        } else {
            Seq::<Seq<char>>::empty()
        })
    }
}

/// One entry of the deduplication map: the street name and containing-city
/// key, the smallest way id seen for that key, and that way's admin chain.
#[derive(Debug)]
pub struct StreetKeyEntry {
    pub name: String,
    pub city_id: Option<String>,
    pub min_way_id: i64,
    pub chain: Vec<Admin>,
}

/// The city id of an entry's key names a city inside its stored chain.
pub open spec fn entry_wf(e: StreetKeyEntry) -> bool {
    match e.city_id {
        Some(cid) => exists|j: int|
            0 <= j < e.chain@.len() && (#[trigger] e.chain@[j]).zone_type == Some(ZoneType::City)
                && e.chain@[j].id@ == cid@,
        None => true,
    }
}

/// The view of an optional string.
pub open spec fn spec_opt_view(o: Option<String>) -> Option<Seq<char>> {
    match o {
        Some(s) => Some(s@),
        None => None,
    }
}

/// The abstract deduplication map: for each entry its name and city key
/// and the smallest way id seen.
pub open spec fn entry_views(es: Seq<StreetKeyEntry>) -> Seq<(Seq<char>, Option<Seq<char>>, i64)> {
    es.map_values(|e: StreetKeyEntry| (e.name@, spec_opt_view(e.city_id), e.min_way_id))
}

/// One update of the abstract map: the first entry carrying the key keeps
/// the smaller way id; an absent key is appended.
pub open spec fn spec_upsert(
    es: Seq<(Seq<char>, Option<Seq<char>>, i64)>,
    name: Seq<char>,
    city: Option<Seq<char>>,
    way_id: i64,
) -> Seq<(Seq<char>, Option<Seq<char>>, i64)>
    decreases es.len(),
{
    if es.len() == 0 {
        seq![(name, city, way_id)]
    } else if es[0].0 == name && es[0].1 == city {
        if way_id < es[0].2 {
            seq![(name, city, way_id)] + es.skip(1)
        } else {
            es
        }
    } else {
        seq![es[0]] + spec_upsert(es.skip(1), name, city, way_id)
    }
}

/// The map after recording one way under each of its chains, in order.
pub open spec fn spec_way_upserts(
    es: Seq<(Seq<char>, Option<Seq<char>>, i64)>,
    name: Seq<char>,
    chains: Seq<Vec<Admin>>,
    way_id: i64,
) -> Seq<(Seq<char>, Option<Seq<char>>, i64)>
    decreases chains.len(),
{
    if chains.len() == 0 {
        es
    } else {
        spec_upsert(
            spec_way_upserts(es, name, chains.drop_last(), way_id),
            name,
            spec_city_id(chains.last()@),
            way_id,
        )
    }
}

/// The deduplication map the way pass builds: every candidate way that
/// belongs to no associated-street relation and has registered chains is
/// recorded under each chain's `(name, city)` key.
pub open spec fn spec_way_pass(
    objs: OsmCollection,
    wa: Seq<WayChains>,
    members: Seq<OsmId>,
    ways: Seq<OsmWay>,
) -> Seq<(Seq<char>, Option<Seq<char>>, i64)>
    decreases ways.len(),
{
    if ways.len() == 0 {
        Seq::<(Seq<char>, Option<Seq<char>>, i64)>::empty()
    } else {
        let prev = spec_way_pass(objs, wa, members, ways.drop_last());
        let w = ways.last();
        if !members.contains(OsmId::Way(w.id)) && spec_is_valid_way(w) {
            match spec_tags_get(w.tags.entries@, "name"@) {
                Some(n) => match spec_chains_of(wa, w.id) {
                    Some(cs) => spec_way_upserts(prev, n, cs, w.id),
                    None => prev,
                },
                None => prev,
            }
        } else {
            prev
        }
    }
}

fn opt_str_eq(a: &Option<String>, b: &Option<String>) -> (r: bool)
    ensures
        r == match (a, b) {
            (Some(x), Some(y)) => x@ == y@,
            (None, None) => true,
            _ => false,
        },
{
    match (a, b) {
        (Some(x), Some(y)) => str_eq(x.as_str(), y.as_str()),
        (None, None) => true,
        _ => false,
    }
}

/// Whether `c` is the stored chain of one of the entries.
pub open spec fn chain_kept_from(es: Seq<StreetKeyEntry>, c: Vec<Admin>) -> bool {
    exists|j: int| 0 <= j < es.len() && (#[trigger] es[j]).chain == c
}

/// Records one way's chain under its `(name, city)` key: the abstract map
/// evolves by [`spec_upsert`] over the chain's city id, and every stored
/// chain keeps naming its key city.
fn upsert_street_key(
    entries: &mut Vec<StreetKeyEntry>,
    name: &String,
    chain: &Vec<Admin>,
    way_id: i64,
)
    requires
        forall|i: int| 0 <= i < old(entries)@.len() ==> entry_wf(#[trigger] old(entries)@[i]),
    ensures
        forall|i: int| 0 <= i < final(entries)@.len() ==> entry_wf(#[trigger] final(entries)@[i]),
        entry_views(final(entries)@) == spec_upsert(
            entry_views(old(entries)@),
            name@,
            spec_city_id(chain@),
            way_id,
        ),
        forall|i: int|
            0 <= i < final(entries)@.len() ==> chain_kept_from(
                old(entries)@,
                (#[trigger] final(entries)@[i]).chain,
            ) || chain_like(chain@, final(entries)@[i].chain@),
{
    let fc = find_city(chain);
    let cid: Option<String> = match fc {
        Some(j) => Some(chain[j].id.clone()),
        None => None,
    };
    proof {
        assert(spec_opt_view(cid) == spec_city_id(chain@));
    }
    let stored = clone_chain(chain);
    proof {
        match fc {
            Some(j) => {
                assert(stored@[j as int].zone_type == Some(ZoneType::City));
                assert(stored@[j as int].id@ == chain@[j as int].id@);
            },
            None => {},
        }
    }
    let ghost whole = entry_views(old(entries)@);
    let ghost key_city = spec_city_id(chain@);
    let mut e: usize = 0;
    proof {
        assert(whole.skip(0) =~= whole);
        assert(whole.take(0) =~= Seq::<(Seq<char>, Option<Seq<char>>, i64)>::empty());
    }
    while e < entries.len()
        invariant
            e <= entries@.len(),
            entries@ == old(entries)@,
            whole == entry_views(entries@),
            key_city == spec_city_id(chain@),
            spec_opt_view(cid) == key_city,
            forall|i: int| 0 <= i < entries@.len() ==> entry_wf(#[trigger] entries@[i]),
            spec_upsert(whole, name@, key_city, way_id) == whole.take(e as int) + spec_upsert(
                whole.skip(e as int),
                name@,
                key_city,
                way_id,
            ),
            cid matches Some(c) ==> exists|j: int|
                0 <= j < stored@.len() && (#[trigger] stored@[j]).zone_type == Some(
                    ZoneType::City,
                ) && stored@[j].id@ == c@,
            chain_like(chain@, stored@),
        decreases entries@.len() - e,
    {
        proof {
            assert(whole.skip(e as int)[0] == whole[e as int]);
            assert(whole.skip(e as int).skip(1) =~= whole.skip(e as int + 1));
            assert(whole[e as int] == (entries@[e as int].name@, spec_opt_view(
                entries@[e as int].city_id,
            ), entries@[e as int].min_way_id));
        }
        if str_eq(entries[e].name.as_str(), name.as_str()) && opt_str_eq(
            &entries[e].city_id,
            &cid,
        ) {
            proof {
                assert(whole[e as int].0 == name@ && whole[e as int].1 == key_city);
            }
            if way_id < entries[e].min_way_id {
                let ghost before = entries@;
                let mut ent = entries.remove(e);
                ent.min_way_id = way_id;
                ent.chain = stored;
                ent.city_id = cid;
                proof {
                    match ent.city_id {
                        Some(_) => {
                            let j = choose|j: int|
                                0 <= j < stored@.len() && (#[trigger] stored@[j]).zone_type
                                    == Some(ZoneType::City) && stored@[j].id@
                                    == ent.city_id->Some_0@;
                            assert(ent.chain@[j].zone_type == Some(ZoneType::City));
                            assert(entry_wf(ent));
                        },
                        None => {
                            assert(entry_wf(ent));
                        },
                    }
                }
                entries.insert(e, ent);
                proof {
                    assert forall|i: int|
                        0 <= i < entries@.len() implies entry_wf(#[trigger] entries@[i]) by {
                        if i < e {
                            assert(entries@[i] == before[i]);
                        } else if i > e {
                            assert(entries@[i] == before[i]);
                        }
                    }
                    assert forall|i: int|
                        0 <= i < entries@.len() implies chain_kept_from(
                        old(entries)@,
                        (#[trigger] entries@[i]).chain,
                    ) || chain_like(chain@, entries@[i].chain@) by {
                        if i != e {
                            assert(entries@[i] == before[i]);
                            assert(old(entries)@[i].chain == entries@[i].chain);
                        } else {
                            assert(chain_like(chain@, entries@[i].chain@));
                        }
                    }
                    assert(spec_upsert(whole.skip(e as int), name@, key_city, way_id)
                        =~= seq![(name@, key_city, way_id)] + whole.skip(e as int + 1));
                    assert(entry_views(entries@) =~= whole.take(e as int) + (seq![
                        (name@, key_city, way_id),
                    ] + whole.skip(e as int + 1)));
                }
            } else {
                proof {
                    assert(spec_upsert(whole.skip(e as int), name@, key_city, way_id)
                        == whole.skip(e as int));
                    assert(entry_views(entries@) =~= whole.take(e as int) + whole.skip(
                        e as int,
                    ));
                    assert forall|i: int|
                        0 <= i < entries@.len() implies chain_kept_from(
                        old(entries)@,
                        (#[trigger] entries@[i]).chain,
                    ) || chain_like(chain@, entries@[i].chain@) by {
                        assert(old(entries)@[i].chain == entries@[i].chain);
                    }
                }
            }
            return;
        }
        proof {
            assert(!(whole[e as int].0 == name@ && whole[e as int].1 == key_city));
            assert(whole.take(e as int + 1) =~= whole.take(e as int) + seq![whole[e as int]]);
            assert(whole.take(e as int) + (seq![whole[e as int]] + spec_upsert(
                whole.skip(e as int + 1),
                name@,
                key_city,
                way_id,
            )) =~= whole.take(e as int + 1) + spec_upsert(
                whole.skip(e as int + 1),
                name@,
                key_city,
                way_id,
            ));
        }
        e += 1;
    }
    let ent = StreetKeyEntry { name: name.clone(), city_id: cid, min_way_id: way_id, chain: stored };
    proof {
        if ent.city_id is Some {
            lemma_city_id_member(chain@);
            let j = choose|j: int|
                0 <= j < chain@.len() && (#[trigger] chain@[j]).zone_type == Some(ZoneType::City)
                    && Some(chain@[j].id@) == spec_city_id(chain@);
            assert(ent.chain@[j].zone_type == Some(ZoneType::City));
            assert(entry_wf(ent));
        }
        assert(whole.skip(entries@.len() as int).len() == 0);
    }
    entries.push(ent);
    proof {
        assert(entry_views(entries@) =~= whole.take(whole.len() as int) + seq![
            (name@, key_city, way_id),
        ]);
        assert(whole.take(whole.len() as int) =~= whole);
        assert forall|i: int|
            0 <= i < entries@.len() implies chain_kept_from(
            old(entries)@,
            (#[trigger] entries@[i]).chain,
        ) || chain_like(chain@, entries@[i].chain@) by {
            if i < entries@.len() - 1 {
                assert(old(entries)@[i].chain == entries@[i].chain);
            } else {
                assert(chain_like(chain@, entries@[i].chain@));
            }
        }
    }
}

/// Law: whenever a street's admin hierarchy yields a city id, that id
/// names a city admin contained in the hierarchy itself, so the city that
/// keys a street's deduplication is always among the street's own admins.
pub proof fn lemma_city_id_member(admins: Seq<Admin>)
    requires
        spec_city_id(admins) is Some,
    ensures
        exists|j: int|
            0 <= j < admins.len() && (#[trigger] admins[j]).zone_type == Some(ZoneType::City)
                && Some(admins[j].id@) == spec_city_id(admins),
    decreases admins.len(),
{
    if admins.len() > 0 {
        if admins[0].zone_type == Some(ZoneType::City) {
            assert(admins[0].zone_type == Some(ZoneType::City) && Some(admins[0].id@)
                == spec_city_id(admins));
        } else {
            lemma_city_id_member(admins.skip(1));
            let j = choose|j: int|
                0 <= j < admins.skip(1).len() && (#[trigger] admins.skip(1)[j]).zone_type
                    == Some(ZoneType::City) && Some(admins.skip(1)[j].id@) == spec_city_id(
                    admins.skip(1),
                );
            assert(admins[j + 1].zone_type == Some(ZoneType::City) && Some(admins[j + 1].id@)
                == spec_city_id(admins));
        }
    }
}

/// The abstract view of the way groups: each way id with its chain count.
pub open spec fn group_views(gs: Seq<WayChains>) -> Seq<(i64, nat)> {
    gs.map_values(|g: WayChains| (g.way_id, g.chains@.len() as nat))
}

/// One chain added to its way's group: the first group with the way id
/// grows by one; a new way id opens a new group.
pub open spec fn spec_group_add(gs: Seq<(i64, nat)>, wid: i64) -> Seq<(i64, nat)>
    decreases gs.len(),
{
    if gs.len() == 0 {
        seq![(wid, 1nat)]
    } else if gs[0].0 == wid {
        seq![(gs[0].0, (gs[0].1 + 1) as nat)] + gs.skip(1)
    } else {
        seq![gs[0]] + spec_group_add(gs.skip(1), wid)
    }
}

/// The groups of a deduplicated map: one chain per entry, grouped by the
/// entry's smallest way id, in first-seen order.
pub open spec fn spec_groups(es: Seq<(Seq<char>, Option<Seq<char>>, i64)>) -> Seq<(i64, nat)>
    decreases es.len(),
{
    if es.len() == 0 {
        Seq::<(i64, nat)>::empty()
    } else {
        spec_group_add(spec_groups(es.drop_last()), es.last().2)
    }
}

fn contains_id(v: &Vec<OsmId>, id: OsmId) -> (r: bool)
    ensures
        r == v@.contains(id),
{
    let mut i: usize = 0;
    while i < v.len()
        invariant
            i <= v@.len(),
            forall|j: int| 0 <= j < i ==> v@[j] != id,
        decreases v@.len() - i,
    {
        if v[i] == id {
            return true;
        }
        i += 1;
    }
    false
}

proof fn lemma_find_way_id(ways: Seq<OsmWay>, id: i64)
    requires
        crate::osm::spec_find_way(ways, id) is Some,
    ensures
        crate::osm::spec_find_way(ways, id)->Some_0.id == id,
    decreases ways.len(),
{
    if ways.len() > 0 && ways[0].id != id {
        lemma_find_way_id(ways.skip(1), id);
    }
}

/// The ids the grouped way documents carry, in group order: each group
/// whose smallest way still resolves with a non-empty name emits one id
/// per chain.
pub open spec fn spec_group_ids(objs: OsmCollection, gs: Seq<(i64, nat)>) -> Seq<Seq<char>>
    decreases gs.len(),
{
    if gs.len() == 0 {
        Seq::<Seq<char>>::empty()
    } else {
        spec_group_ids(objs, gs.drop_last()) + ({
            let wid = gs.last().0;
            let n = gs.last().1;
            match crate::osm::spec_find_way(objs.ways@, wid) {
                Some(way) => match spec_tags_get(way.tags.entries@, "name"@) {
                    Some(nm) => if nm.len() > 0 {
                        spec_emit_ids(false, wid, n)
                    } else {
                        Seq::<Seq<char>>::empty()
                    },
                    None => Seq::<Seq<char>>::empty(),
                },
                None => Seq::<Seq<char>>::empty(),
            }
        })
    }
}

/// Every document id street ingestion emits, in emission order: the
/// relation-pass documents, then one document per grouped way chain.
pub open spec fn spec_street_ids(objs: OsmCollection, wa: Seq<WayChains>) -> Seq<Seq<char>> {
    spec_rel_pass_ids(objs, wa, objs.relations@) + spec_group_ids(
        objs,
        spec_groups(spec_way_pass(objs, wa, spec_relation_members(objs.relations@), objs.ways@)),
    )
}

/// Law: street ingestion is reproducible — any two street lists built from
/// the same collection and the same spatial lookup carry the same document
/// ids in the same order.
pub proof fn lemma_streets_deterministic(
    objs: OsmCollection,
    wa: Seq<WayChains>,
    r1: Seq<Street>,
    r2: Seq<Street>,
)
    requires
        street_ids(r1) == spec_street_ids(objs, wa),
        street_ids(r2) == spec_street_ids(objs, wa),
    ensures
        street_ids(r1) == street_ids(r2),
{
}

/// Builds the street documents of a resolved OSM collection.
///
/// Ways grouped by an associated-street relation are indexed once through
/// the relation, whose documents open the result; every other candidate way
/// is deduplicated by its name and containing city, the smallest way id of
/// each group naming the document. The emitted ids are exactly
/// [`spec_street_ids`], and every street has a non-empty name and a label,
/// zip codes and country codes derived from the chain it stores.
pub fn streets(objs: &OsmCollection, way_admins: &WayAdmins) -> (r: Vec<Street>)
    ensures
        forall|i: int| 0 <= i < r@.len() ==> street_wf(#[trigger] r@[i]),
        street_ids(r@) == spec_street_ids(*objs, way_admins.entries@),
        forall|i: int|
            0 <= i < r@.len() ==> wa_has_chain(
                way_admins.entries@,
                (#[trigger] r@[i]).administrative_regions@,
            ),
{
    let mut out: Vec<Street> = Vec::new();
    let mut street_in_relation: Vec<OsmId> = Vec::new();
    let mut i: usize = 0;
    while i < objs.relations.len()
        invariant
            i <= objs.relations@.len(),
            forall|k: int| 0 <= k < out@.len() ==> street_wf(#[trigger] out@[k]),
            forall|k: int|
                0 <= k < out@.len() ==> wa_has_chain(
                    way_admins.entries@,
                    (#[trigger] out@[k]).administrative_regions@,
                ),
            street_ids(out@) == spec_rel_pass_ids(
                *objs,
                way_admins.entries@,
                objs.relations@.take(i as int),
            ),
            street_in_relation@ == spec_relation_members(objs.relations@.take(i as int)),
        decreases objs.relations@.len() - i,
    {
        proof {
            assert(objs.relations@.take(i as int + 1).drop_last() =~= objs.relations@.take(
                i as int,
            ));
            assert(objs.relations@.take(i as int + 1).last() == objs.relations@[i as int]);
        }
        let rel = &objs.relations[i];
        let ghost rel_v = objs.relations@[i as int];
        let ghost start_ids = street_ids(out@);
        let ghost members_start = street_in_relation@;
        if is_street_relation(rel) {
            let mut k: usize = 0;
            while k < rel.refs.len()
                invariant
                    k <= rel.refs@.len(),
                    *rel == objs.relations@[i as int],
                    street_in_relation@ =~= members_start + rel.refs@.take(k as int).map_values(
                        |rf: OsmRef| rf.member,
                    ),
                decreases rel.refs@.len() - k,
            {
                proof {
                    assert(rel.refs@.take(k as int + 1).drop_last() =~= rel.refs@.take(
                        k as int,
                    ));
                }
                street_in_relation.push(rel.refs[k].member);
                proof {
                    assert(street_in_relation@ =~= members_start + rel.refs@.take(
                        k as int + 1,
                    ).map_values(|rf: OsmRef| rf.member));
                }
                k += 1;
            }
            proof {
                assert(rel.refs@.take(rel.refs@.len() as int) =~= rel.refs@);
                assert(street_in_relation@ =~= spec_relation_members(objs.relations@.take(
                    i as int + 1,
                )));
            }
            let mut k: usize = 0;
            let mut done = false;
            proof {
                assert(rel_v.refs@.skip(0) =~= rel_v.refs@);
            }
            while k < rel.refs.len() && !done
                invariant
                    k <= rel.refs@.len(),
                    *rel == rel_v,
                    forall|m: int| 0 <= m < out@.len() ==> street_wf(#[trigger] out@[m]),
                    forall|m: int|
                        0 <= m < out@.len() ==> wa_has_chain(
                            way_admins.entries@,
                            (#[trigger] out@[m]).administrative_regions@,
                        ),
                    !done ==> street_ids(out@) == start_ids && spec_rel_refs_emit(
                        *objs,
                        way_admins.entries@,
                        rel_v,
                        rel_v.refs@,
                    ) == spec_rel_refs_emit(
                        *objs,
                        way_admins.entries@,
                        rel_v,
                        rel_v.refs@.skip(k as int),
                    ),
                    done ==> street_ids(out@) == start_ids + spec_rel_refs_emit(
                        *objs,
                        way_admins.entries@,
                        rel_v,
                        rel_v.refs@,
                    ),
                decreases rel.refs@.len() - k,
            {
                proof {
                    assert(rel_v.refs@.skip(k as int)[0] == rel_v.refs@[k as int]);
                    assert(rel_v.refs@.skip(k as int).skip(1) =~= rel_v.refs@.skip(
                        k as int + 1,
                    ));
                }
                if str_eq(rel.refs[k].role.as_str(), "street") {
                    match rel.refs[k].member {
                        OsmId::Way(wid) => {
                            match objs.way(wid) {
                                Some(way) => {
                                    let name: Option<String> = match rel.tags.get("name") {
                                        Some(v) => {
                                            if v.as_str().unicode_len() > 0 {
                                                Some(v.clone())
                                            } else {
                                                None
                                            }
                                        },
                                        None => None,
                                    };
                                    let name: Option<String> = match name {
                                        Some(v) => Some(v),
                                        None => match way.tags.get("name") {
                                            Some(v) => {
                                                if v.as_str().unicode_len() > 0 {
                                                    Some(v.clone())
                                                } else {
                                                    None
                                                }
                                            },
                                            None => None,
                                        },
                                    };
                                    match name {
                                        Some(name) => {
                                            proof {
                                                assert(spec_rel_street_name(rel_v, *way)
                                                    == Some(name@));
                                            }
                                            let coord = way_coord(objs, way);
                                            match way_admins.chains_of(wid) {
                                                Some(chains) => {
                                                    let ghost prev = out@;
                                                    proof {
                                                        lemma_chains_of_entry(
                                                            way_admins.entries@,
                                                            wid,
                                                        );
                                                    }
                                                    emit_streets(
                                                        &mut out,
                                                        true,
                                                        rel.id,
                                                        &name,
                                                        coord,
                                                        chains,
                                                    );
                                                    proof {
                                                        let wa = way_admins.entries@;
                                                        let e = choose|e: int|
                                                            0 <= e < wa.len() && (
                                                            #[trigger] wa[e]).chains@ == chains@;
                                                        assert forall|m: int|
                                                            0 <= m < out@.len() implies wa_has_chain(
                                                            wa,
                                                            (
                                                            #[trigger] out@[m]).administrative_regions@,
                                                        ) by {
                                                            if m >= prev.len() {
                                                                let j = choose|j: int|
                                                                    0 <= j < chains@.len()
                                                                        && chain_like(
                                                                        (#[trigger] chains@[j])@,
                                                                        out@[m].administrative_regions@,
                                                                    );
                                                                assert(wa[e].chains@[j]
                                                                    == chains@[j]);
                                                                assert(chain_like(
                                                                    wa[e].chains@[j]@,
                                                                    out@[m].administrative_regions@,
                                                                ));
                                                            }
                                                        }
                                                    }
                                                },
                                                None => {},
                                            }
                                            done = true;
                                        },
                                        None => {},
                                    }
                                },
                                None => {},
                            }
                        },
                        _ => {},
                    }
                }
                k += 1;
            }
            proof {
                if !done {
                    assert(rel_v.refs@.skip(rel_v.refs@.len() as int).len() == 0);
                    assert(street_ids(out@) =~= start_ids + spec_rel_refs_emit(
                        *objs,
                        way_admins.entries@,
                        rel_v,
                        rel_v.refs@,
                    ));
                }
            }
        }
        proof {
            assert(street_ids(out@) =~= spec_rel_pass_ids(
                *objs,
                way_admins.entries@,
                objs.relations@.take(i as int + 1),
            ));
            assert(street_in_relation@ =~= spec_relation_members(objs.relations@.take(
                i as int + 1,
            )));
        }
        i += 1;
    }
    let ghost rel_ids = street_ids(out@);
    let ghost members = street_in_relation@;
    proof {
        assert(objs.relations@.take(objs.relations@.len() as int) =~= objs.relations@);
    }
    // Deduplicate the remaining ways by name and containing city.
    let mut entries: Vec<StreetKeyEntry> = Vec::new();
    let mut i: usize = 0;
    while i < objs.ways.len()
        invariant
            i <= objs.ways@.len(),
            street_in_relation@ == members,
            forall|k: int| 0 <= k < entries@.len() ==> entry_wf(#[trigger] entries@[k]),
            forall|k: int|
                0 <= k < entries@.len() ==> wa_has_chain(
                    way_admins.entries@,
                    (#[trigger] entries@[k]).chain@,
                ),
            entry_views(entries@) == spec_way_pass(
                *objs,
                way_admins.entries@,
                members,
                objs.ways@.take(i as int),
            ),
        decreases objs.ways@.len() - i,
    {
        proof {
            assert(objs.ways@.take(i as int + 1).drop_last() =~= objs.ways@.take(i as int));
            assert(objs.ways@.take(i as int + 1).last() == objs.ways@[i as int]);
        }
        let way = &objs.ways[i];
        if !contains_id(&street_in_relation, OsmId::Way(way.id)) && is_valid_way(way) {
            match way.tags.get("name") {
                Some(v) => {
                    let name = v.clone();
                    match way_admins.chains_of(way.id) {
                        Some(chains) => {
                            let ghost start_views = entry_views(entries@);
                            let mut c: usize = 0;
                            proof {
                                assert(chains@.take(0)
                                    =~= Seq::<Vec<Admin>>::empty());
                                lemma_chains_of_entry(way_admins.entries@, way.id);
                            }
                            while c < chains.len()
                                invariant
                                    c <= chains@.len(),
                                    *way == objs.ways@[i as int],
                                    name@ == spec_tags_get(
                                        way.tags.entries@,
                                        "name"@,
                                    )->Some_0,
                                    exists|we: int|
                                        0 <= we < way_admins.entries@.len() && (
                                        #[trigger] way_admins.entries@[we]).chains@ == chains@,
                                    forall|k: int|
                                        0 <= k < entries@.len() ==> entry_wf(
                                            #[trigger] entries@[k],
                                        ),
                                    forall|k: int|
                                        0 <= k < entries@.len() ==> wa_has_chain(
                                            way_admins.entries@,
                                            (#[trigger] entries@[k]).chain@,
                                        ),
                                    entry_views(entries@) == spec_way_upserts(
                                        start_views,
                                        name@,
                                        chains@.take(c as int),
                                        way.id,
                                    ),
                                decreases chains@.len() - c,
                            {
                                proof {
                                    assert(chains@.take(c as int + 1).drop_last()
                                        =~= chains@.take(c as int));
                                    assert(chains@.take(c as int + 1).last()
                                        == chains@[c as int]);
                                }
                                let ghost before_entries = entries@;
                                upsert_street_key(&mut entries, &name, &chains[c], way.id);
                                proof {
                                    let wa = way_admins.entries@;
                                    let we = choose|we: int|
                                        0 <= we < wa.len() && (#[trigger] wa[we]).chains@
                                            == chains@;
                                    assert forall|k: int|
                                        0 <= k < entries@.len() implies wa_has_chain(
                                        wa,
                                        (#[trigger] entries@[k]).chain@,
                                    ) by {
                                        if chain_kept_from(before_entries, entries@[k].chain) {
                                            let ek = entries@[k].chain;
                                            let j = choose|j: int|
                                                0 <= j < before_entries.len() && (
                                                #[trigger] before_entries[j]).chain == ek;
                                            assert(wa_has_chain(wa, before_entries[j].chain@));
                                        } else {
                                            assert(chain_like(
                                                chains@[c as int]@,
                                                entries@[k].chain@,
                                            ));
                                            assert(wa[we].chains@[c as int]
                                                == chains@[c as int]);
                                            assert(chain_like(
                                                wa[we].chains@[c as int]@,
                                                entries@[k].chain@,
                                            ));
                                        }
                                    }
                                }
                                c += 1;
                            }
                            proof {
                                assert(chains@.take(chains@.len() as int) =~= chains@);
                            }
                        },
                        None => {},
                    }
                },
                None => {},
            }
        }
        i += 1;
    }
    let ghost dedup_views = entry_views(entries@);
    proof {
        assert(objs.ways@.take(objs.ways@.len() as int) =~= objs.ways@);
    }
    // Group the kept chains by their way id, in first-seen order.
    let mut groups: Vec<WayChains> = Vec::new();
    let mut e: usize = 0;
    while e < entries.len()
        invariant
            e <= entries@.len(),
            entry_views(entries@) == dedup_views,
            forall|k: int|
                0 <= k < entries@.len() ==> wa_has_chain(
                    way_admins.entries@,
                    (#[trigger] entries@[k]).chain@,
                ),
            forall|a: int, b: int|
                #![trigger groups@[a].chains@[b]]
                0 <= a < groups@.len() && 0 <= b < groups@[a].chains@.len() ==> wa_has_chain(
                    way_admins.entries@,
                    groups@[a].chains@[b]@,
                ),
            group_views(groups@) == spec_groups(dedup_views.take(e as int)),
        decreases entries@.len() - e,
    {
        proof {
            assert(dedup_views.take(e as int + 1).drop_last() =~= dedup_views.take(e as int));
            assert(dedup_views.take(e as int + 1).last() == dedup_views[e as int]);
            assert(dedup_views[e as int].2 == entries@[e as int].min_way_id);
        }
        let chain = clone_chain(&entries[e].chain);
        proof {
            let wa = way_admins.entries@;
            assert(wa_has_chain(wa, entries@[e as int].chain@));
            let (we, wk) = choose|we: int, wk: int|
                #![trigger wa[we].chains@[wk]]
                0 <= we < wa.len() && 0 <= wk < wa[we].chains@.len() && chain_like(
                    wa[we].chains@[wk]@,
                    entries@[e as int].chain@,
                );
            lemma_chain_like_trans(wa[we].chains@[wk]@, entries@[e as int].chain@, chain@);
            assert(wa_has_chain(wa, chain@));
        }
        let wid = entries[e].min_way_id;
        let ghost gv = group_views(groups@);
        let mut found: Option<usize> = None;
        let mut g: usize = 0;
        proof {
            assert(gv.skip(0) =~= gv);
            assert(gv.take(0) =~= Seq::<(i64, nat)>::empty());
        }
        while g < groups.len() && found.is_none()
            invariant
                g <= groups@.len(),
                gv == group_views(groups@),
                found matches Some(gi) ==> gi < groups@.len() && groups@[gi as int].way_id == wid
                    && g == gi + 1 && (forall|x: int|
                    0 <= x < gi ==> (#[trigger] gv[x]).0 != wid) && spec_group_add(gv, wid)
                    == gv.take(gi as int) + spec_group_add(gv.skip(gi as int), wid),
                found is None ==> (forall|x: int| 0 <= x < g ==> (#[trigger] gv[x]).0 != wid)
                    && spec_group_add(gv, wid) == gv.take(g as int) + spec_group_add(
                    gv.skip(g as int),
                    wid,
                ),
            decreases groups@.len() - g,
        {
            proof {
                assert(gv.skip(g as int)[0] == gv[g as int]);
                assert(gv.skip(g as int).skip(1) =~= gv.skip(g as int + 1));
                assert(gv[g as int] == (
                    groups@[g as int].way_id,
                    groups@[g as int].chains@.len() as nat,
                ));
            }
            if groups[g].way_id == wid {
                found = Some(g);
            } else {
                proof {
                    assert(gv.take(g as int + 1) =~= gv.take(g as int) + seq![gv[g as int]]);
                    assert(gv.take(g as int) + (seq![gv[g as int]] + spec_group_add(
                        gv.skip(g as int + 1),
                        wid,
                    )) =~= gv.take(g as int + 1) + spec_group_add(gv.skip(g as int + 1), wid));
                }
            }
            g += 1;
        }
        let ghost chain_v = chain@;
        match found {
            Some(gi) => {
                let ghost before_groups = groups@;
                let mut grp = groups.remove(gi);
                grp.chains.push(chain);
                groups.insert(gi, grp);
                proof {
                    assert(spec_group_add(gv.skip(gi as int), wid) =~= seq![
                        ((wid, (gv[gi as int].1 + 1) as nat)),
                    ] + gv.skip(gi as int + 1));
                    assert(group_views(groups@) =~= gv.take(gi as int) + (seq![
                        ((wid, (gv[gi as int].1 + 1) as nat)),
                    ] + gv.skip(gi as int + 1)));
                    assert forall|a: int, b: int|
                        #![trigger groups@[a].chains@[b]]
                        0 <= a < groups@.len() && 0 <= b < groups@[a].chains@.len()
                            implies wa_has_chain(way_admins.entries@, groups@[a].chains@[b]@) by {
                        if a != gi {
                            assert(groups@[a] == before_groups[a]);
                        } else {
                            if b < before_groups[gi as int].chains@.len() {
                                assert(groups@[a].chains@[b]
                                    == before_groups[gi as int].chains@[b]);
                            } else {
                                assert(groups@[a].chains@[b]@ == chain_v);
                            }
                        }
                    }
                }
            },
            None => {
                let ghost before_groups = groups@;
                let mut chains: Vec<Vec<Admin>> = Vec::new();
                chains.push(chain);
                groups.push(WayChains { way_id: wid, chains });
                proof {
                    assert(gv.skip(groups@.len() - 1 as int).len() == 0);
                    assert(group_views(groups@) =~= gv.take(gv.len() as int) + seq![
                        ((wid, 1nat)),
                    ]);
                    assert(gv.take(gv.len() as int) =~= gv);
                    assert forall|a: int, b: int|
                        #![trigger groups@[a].chains@[b]]
                        0 <= a < groups@.len() && 0 <= b < groups@[a].chains@.len()
                            implies wa_has_chain(way_admins.entries@, groups@[a].chains@[b]@) by {
                        if a < before_groups.len() {
                            assert(groups@[a] == before_groups[a]);
                        } else {
                            assert(groups@[a].chains@[b]@ == chain_v);
                        }
                    }
                }
            },
        }
        e += 1;
    }
    proof {
        assert(dedup_views.take(dedup_views.len() as int) =~= dedup_views);
    }
    // Emit one street per grouped chain, from the stored smallest way.
    let ghost gvs = group_views(groups@);
    let mut g: usize = 0;
    while g < groups.len()
        invariant
            g <= groups@.len(),
            gvs == group_views(groups@),
            forall|k: int| 0 <= k < out@.len() ==> street_wf(#[trigger] out@[k]),
            forall|k: int|
                0 <= k < out@.len() ==> wa_has_chain(
                    way_admins.entries@,
                    (#[trigger] out@[k]).administrative_regions@,
                ),
            forall|a: int, b: int|
                #![trigger groups@[a].chains@[b]]
                0 <= a < groups@.len() && 0 <= b < groups@[a].chains@.len() ==> wa_has_chain(
                    way_admins.entries@,
                    groups@[a].chains@[b]@,
                ),
            street_ids(out@) == rel_ids + spec_group_ids(*objs, gvs.take(g as int)),
        decreases groups@.len() - g,
    {
        let ghost prev_out = out@;
        proof {
            assert(gvs.take(g as int + 1).drop_last() =~= gvs.take(g as int));
            assert(gvs.take(g as int + 1).last() == gvs[g as int]);
            assert(gvs[g as int] == (
                groups@[g as int].way_id,
                groups@[g as int].chains@.len() as nat,
            ));
        }
        match objs.way(groups[g].way_id) {
            Some(way) => {
                proof {
                    lemma_find_way_id(objs.ways@, groups@[g as int].way_id);
                }
                match way.tags.get("name") {
                    Some(v) => {
                        if v.as_str().unicode_len() > 0 {
                            let name = v.clone();
                            let coord = way_coord(objs, way);
                            emit_streets(&mut out, false, way.id, &name, coord, &groups[g].chains);
                            proof {
                                let wa = way_admins.entries@;
                                let gchains = groups@[g as int].chains@;
                                assert forall|m: int|
                                    0 <= m < out@.len() implies wa_has_chain(
                                    wa,
                                    (#[trigger] out@[m]).administrative_regions@,
                                ) by {
                                    if m >= prev_out.len() {
                                        let j = choose|j: int|
                                            0 <= j < gchains.len() && chain_like(
                                                (#[trigger] gchains[j])@,
                                                out@[m].administrative_regions@,
                                            );
                                        assert(wa_has_chain(wa, gchains[j]@));
                                        let (we, wk) = choose|we: int, wk: int|
                                            #![trigger wa[we].chains@[wk]]
                                            0 <= we < wa.len() && 0 <= wk
                                                < wa[we].chains@.len() && chain_like(
                                                wa[we].chains@[wk]@,
                                                gchains[j]@,
                                            );
                                        lemma_chain_like_trans(
                                            wa[we].chains@[wk]@,
                                            gchains[j]@,
                                            out@[m].administrative_regions@,
                                        );
                                    }
                                }
                            }
                        }
                    },
                    None => {},
                }
            },
            None => {},
        }
        proof {
            assert(street_ids(out@) =~= rel_ids + spec_group_ids(*objs, gvs.take(
                g as int + 1,
            )));
        }
        g += 1;
    }
    proof {
        assert(gvs.take(gvs.len() as int) =~= gvs);
        assert(street_ids(out@) =~= spec_street_ids(*objs, way_admins.entries@));
    }
    out
}

/// Two streets that agree in everything but the weight.
pub open spec fn same_street_but_weight(a: Street, b: Street) -> bool {
    &&& b.id == a.id
    &&& b.name == a.name
    &&& b.label == a.label
    &&& b.coord == a.coord
    &&& b.zip_codes == a.zip_codes
    &&& b.administrative_regions == a.administrative_regions
    &&& b.country_codes == a.country_codes
    &&& b.distance == a.distance
}

/// Copies each street's weight from its containing city admin, where one
/// is present; streets without a city keep their weight.
pub fn compute_street_weight(streets: &mut Vec<Street>)
    ensures
        final(streets)@.len() == old(streets)@.len(),
        forall|i: int|
            0 <= i < final(streets)@.len() ==> same_street_but_weight(
                old(streets)@[i],
                #[trigger] final(streets)@[i],
            ) && final(streets)@[i].weight == spec_city_weight(
                old(streets)@[i].administrative_regions@,
                old(streets)@[i].weight,
            ),
{
    let ghost orig = streets@;
    let mut i: usize = 0;
    while i < streets.len()
        invariant
            i <= streets@.len(),
            streets@.len() == orig.len(),
            forall|k: int| i <= k < orig.len() ==> #[trigger] streets@[k] == orig[k],
            forall|k: int|
                0 <= k < i ==> same_street_but_weight(orig[k], #[trigger] streets@[k])
                    && streets@[k].weight == spec_city_weight(
                    orig[k].administrative_regions@,
                    orig[k].weight,
                ),
        decreases streets@.len() - i,
    {
        let ghost before = streets@;
        let mut s = streets.remove(i);
        let w = city_weight(&s.administrative_regions, s.weight);
        s.weight = w;
        streets.insert(i, s);
        proof {
            assert forall|k: int|
                i + 1 <= k < orig.len() implies #[trigger] streets@[k] == orig[k] by {
                assert(streets@[k] == before[k]);
            }
        }
        i += 1;
    }
}

fn city_weight(admins: &Vec<Admin>, fallback: u64) -> (r: u64)
    ensures
        r == spec_city_weight(admins@, fallback),
{
    let mut i: usize = 0;
    proof {
        assert(admins@.skip(0) =~= admins@);
    }
    while i < admins.len()
        invariant
            i <= admins@.len(),
            spec_city_weight(admins@, fallback) == spec_city_weight(
                admins@.skip(i as int),
                fallback,
            ),
        decreases admins@.len() - i,
    {
        proof {
            assert(admins@.skip(i as int)[0] == admins@[i as int]);
            assert(admins@.skip(i as int).skip(1) =~= admins@.skip(i as int + 1));
        }
        if admins[i].is_city() {
            return admins[i].weight;
        }
        i += 1;
    }
    fallback
}

} // verus!
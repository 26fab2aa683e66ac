//! Ingestion of administrative regions: selecting the boundary relations of
//! the requested levels, building one canonical record per relation, and
//! normalizing importance weights per level.

use vstd::prelude::*;
use std::collections::HashSet;
use crate::osm::{spec_tags_get, OsmCollection, OsmId, OsmObj, OsmRef, OsmRelation, Tag, Tags};
use crate::places::{Admin, Coord, PropertyCode, ZoneType};
use crate::scalar::PPM;
use crate::text::{
    all_digits, clone_strings, dec_digits_signed, dec_val, has_str, lex_le, parse_u32, parse_u64,
    sorted_strings, split_seq, str_eq, str_has_prefix, spec_has_prefix, split_on,
    trim_leading_zeros, trim_zeros,
};
use vstd::arithmetic::div_mod::{lemma_div_multiples_vanish, lemma_fundamental_div_mod};

verus! {

/// The zone kind of an administrative level: the configured city level is a
/// city, every other level is left unclassified.
pub open spec fn spec_zone_type(level: u32, city_level: u32) -> Option<ZoneType> {
    if level == city_level {
        Some(ZoneType::City)
    } else {
        None
    }
}

pub fn get_zone_type(level: u32, city_level: u32) -> (r: Option<ZoneType>)
    ensures
        r == spec_zone_type(level, city_level),
{
    if level == city_level {
        Some(ZoneType::City)
    } else {
        None
    }
}

/// Whether a relation is an administrative boundary of one of the
/// requested levels. A missing or unparsable `admin_level` never matches.
pub open spec fn spec_is_admin_rel(levels: Set<u32>, rel: OsmRelation) -> bool {
    &&& spec_tags_get(rel.tags.entries@, "boundary"@) == Some("administrative"@)
    &&& match spec_tags_get(rel.tags.entries@, "admin_level"@) {
        None => false,
        Some(v) => v.len() > 0 && all_digits(v) && dec_val(v) <= u32::MAX && levels.contains(
            dec_val(v) as u32,
        ),
    }
}

/// Whether an object is an administrative boundary relation of one of the
/// requested levels.
pub open spec fn spec_is_admin(levels: Set<u32>, obj: OsmObj) -> bool {
    match obj {
        OsmObj::Relation(rel) => spec_is_admin_rel(levels, rel),
        _ => false,
    }
}

/// Selects the administrative boundary relations of a configured set of
/// levels.
#[derive(Debug)]
pub struct AdminMatcher {
    admin_levels: HashSet<u32>,
}

impl AdminMatcher {
    /// The configured levels.
    pub closed spec fn spec_levels(&self) -> Set<u32> {
        self.admin_levels@
    }

    pub fn new(levels: HashSet<u32>) -> (r: AdminMatcher)
        ensures
            r.spec_levels() == levels@,
    {
        AdminMatcher { admin_levels: levels }
    }

    /// Whether a relation passes the matcher.
    pub fn is_admin_relation(&self, rel: &OsmRelation) -> (r: bool)
        ensures
            r == spec_is_admin_rel(self.spec_levels(), *rel),
    {
        broadcast use vstd::std_specs::hash::group_hash_axioms;

        let boundary_ok = match rel.tags.get("boundary") {
            Some(v) => str_eq(v.as_str(), "administrative"),
            None => false,
        };
        if !boundary_ok {
            return false;
        }
        match rel.tags.get("admin_level") {
            None => false,
            Some(v) => match parse_u32(v.as_str()) {
                None => false,
                Some(lvl) => self.admin_levels.contains(&lvl),
            },
        }
    }

    pub fn is_admin(&self, obj: &OsmObj) -> (r: bool)
        ensures
            r == spec_is_admin(self.spec_levels(), *obj),
    {
        match obj {
            OsmObj::Relation(rel) => self.is_admin_relation(rel),
            _ => false,
        }
    }
}

/// The zip-code suffix of a label: nothing without zip codes, the single
/// code in parentheses, or the smallest and largest code as a range.
pub open spec fn spec_zip_suffix(zips: Seq<String>) -> Seq<char> {
    if zips.len() == 0 {
        Seq::<char>::empty()
    } else if zips.len() == 1 {
        " ("@ + zips[0]@ + ")"@
    } else {
        " ("@ + zips[0]@ + "-"@ + zips.last()@ + ")"@
    }
}

pub fn format_zip_codes(zip_codes: &Vec<String>) -> (r: String)
    ensures
        r@ == spec_zip_suffix(zip_codes@),
{
    if zip_codes.len() == 0 {
        let r = String::new();
        proof {
            assert(r@ =~= spec_zip_suffix(zip_codes@));
        }
        r
    } else if zip_codes.len() == 1 {
        let r = String::from_str(" (").concat(zip_codes[0].as_str()).concat(")");
        proof {
            assert(r@ =~= spec_zip_suffix(zip_codes@));
        }
        r
    } else {
        let r = String::from_str(" (").concat(zip_codes[0].as_str()).concat("-").concat(
            zip_codes[zip_codes.len() - 1].as_str(),
        ).concat(")");
        proof {
            assert(r@ =~= spec_zip_suffix(zip_codes@));
        }
        r
    }
}

/// The raw zip-code text of a relation: the `addr:postcode` tag, or else
/// `postal_code`, or nothing.
pub open spec fn spec_zip_source(tags: Tags) -> Seq<char> {
    match spec_tags_get(tags.entries@, "addr:postcode"@) {
        Some(v) => v,
        None => match spec_tags_get(tags.entries@, "postal_code"@) {
            Some(v) => v,
            None => Seq::<char>::empty(),
        },
    }
}

/// What reading zip codes guarantees: every entry is a non-empty piece of
/// the source text split on `;`, every non-empty piece is present, and the
/// list is sorted and free of duplicates.
pub open spec fn zips_wf(r: Seq<String>, tags: Tags) -> bool {
    &&& forall|i: int|
        0 <= i < r.len() ==> (#[trigger] r[i])@.len() > 0 && split_seq(
            spec_zip_source(tags),
            ';',
        ).contains(r[i]@)
    &&& forall|p: Seq<char>|
        #[trigger] split_seq(spec_zip_source(tags), ';').contains(p) && p.len() > 0 ==> has_str(
            r,
            p,
        )
    &&& forall|i: int, j: int| 0 <= i < j < r.len() ==> lex_le(r[i]@, r[j]@)
    &&& forall|i: int| 0 <= i < r.len() - 1 ==> (#[trigger] r[i])@ != r[i + 1]@
}

/// Reads the zip codes of a relation: the source text split on `;`, empty
/// pieces dropped, sorted, and deduplicated.
#[verifier::rlimit(60)]
pub fn read_zip_codes(tags: &Tags) -> (r: Vec<String>)
    ensures
        zips_wf(r@, *tags),
{
    broadcast use vstd::seq_lib::group_to_multiset_ensures;

    let source: String = match tags.get("addr:postcode") {
        Some(v) => v.clone(),
        None => match tags.get("postal_code") {
            Some(v) => v.clone(),
            None => String::new(),
        },
    };
    let pieces = split_on(source.as_str(), ';');
    let ghost all_pieces = split_seq(spec_zip_source(*tags), ';');
    proof {
        assert(pieces@.map_values(|p: String| p@) == all_pieces);
    }
    let mut kept: Vec<String> = Vec::new();
    let mut i: usize = 0;
    while i < pieces.len()
        invariant
            i <= pieces@.len(),
            pieces@.map_values(|p: String| p@) == all_pieces,
            forall|j: int|
                0 <= j < kept@.len() ==> (#[trigger] kept@[j])@.len() > 0 && all_pieces.contains(
                    kept@[j]@,
                ),
            forall|k: int|
                0 <= k < i && all_pieces[k].len() > 0 ==> exists|j: int|
                    0 <= j < kept@.len() && kept@[j]@ == all_pieces[k],
        decreases pieces@.len() - i,
    {
        proof {
            assert(all_pieces[i as int] == pieces@.map_values(|p: String| p@)[i as int]);
        }
        let ghost old_kept = kept@;
        if pieces[i].as_str().unicode_len() > 0 {
            kept.push(pieces[i].clone());
            proof {
                assert(kept@.last()@ == all_pieces[i as int]);
                assert(all_pieces.contains(all_pieces[i as int]));
            }
        }
        proof {
            assert forall|k: int|
                0 <= k < i + 1 && all_pieces[k].len() > 0 implies exists|j: int|
                0 <= j < kept@.len() && kept@[j]@ == all_pieces[k] by {
                if k < i {
                    let j = choose|j: int|
                        0 <= j < old_kept.len() && old_kept[j]@ == all_pieces[k];
                    assert(kept@[j]@ == all_pieces[k]);
                } else {
                    assert(kept@[kept@.len() - 1]@ == all_pieces[k]);
                }
            }
        }
        i += 1;
    }
    let ghost kept_snapshot = kept@;
    let sorted = sorted_strings(kept);
    proof {
        let kv = kept@.map_values(|s: String| s@);
        let sv = sorted@.map_values(|s: String| s@);
        assert(sv.to_multiset() == kv.to_multiset());
        assert forall|j: int| 0 <= j < sorted@.len() implies (#[trigger] sorted@[j])@.len() > 0
            && all_pieces.contains(sorted@[j]@) by {
            assert(sv.contains(sv[j]));
            assert(sv.to_multiset().count(sv[j]) > 0);
            assert(kv.to_multiset().count(sv[j]) > 0);
            assert(kv.contains(sv[j]));
            let w = choose|w: int| 0 <= w < kv.len() && kv[w] == sv[j];
            assert(kept@[w]@ == sorted@[j]@);
        }
        assert forall|p: Seq<char>|
            #[trigger] all_pieces.contains(p) && p.len() > 0 implies exists|j: int|
            0 <= j < sorted@.len() && sorted@[j]@ == p by {
            let k = choose|k: int| 0 <= k < all_pieces.len() && all_pieces[k] == p;
            let w = choose|w: int| 0 <= w < kept@.len() && kept@[w]@ == p;
            assert(kv[w] == p);
            assert(kv.contains(p));
            assert(kv.to_multiset().count(p) > 0);
            assert(sv.to_multiset().count(p) > 0);
            assert(sv.contains(p));
            let j = choose|j: int| 0 <= j < sv.len() && sv[j] == p;
            assert(sorted@[j]@ == p);
        }
    }
    let r = dedup_sorted(sorted);
    proof {
        assert forall|p: Seq<char>|
            #[trigger] all_pieces.contains(p) && p.len() > 0 implies has_str(r@, p) by {
            let k = choose|k: int| 0 <= k < all_pieces.len() && all_pieces[k] == p;
            let w = choose|w: int| 0 <= w < kept_snapshot.len() && kept_snapshot[w]@ == p;
            let kv = kept_snapshot.map_values(|s: String| s@);
            let sv = sorted@.map_values(|s: String| s@);
            assert(kv[w] == p);
            assert(kv.contains(p));
            assert(kv.to_multiset().count(p) > 0);
            assert(sv.to_multiset().count(p) > 0);
            assert(sv.contains(p));
            let j = choose|j: int| 0 <= j < sv.len() && sv[j] == p;
            assert(sorted@[j]@ == p);
            assert(has_str(r@, sorted@[j]@));
        }
    }
    r
}

/// Removes adjacent duplicates of a sorted list, keeping the element set.
#[verifier::rlimit(30)]
fn dedup_sorted(v: Vec<String>) -> (r: Vec<String>)
    requires
        forall|i: int, j: int| 0 <= i < j < v@.len() ==> lex_le(v@[i]@, v@[j]@),
    ensures
        forall|i: int|
            #![trigger r@[i]]
            0 <= i < r@.len() ==> exists|j: int| 0 <= j < v@.len() && r@[i]@ == v@[j]@,
        forall|j: int| 0 <= j < v@.len() ==> has_str(r@, (#[trigger] v@[j])@),
        forall|i: int, j: int| 0 <= i < j < r@.len() ==> lex_le(r@[i]@, r@[j]@),
        forall|i: int| 0 <= i < r@.len() - 1 ==> (#[trigger] r@[i])@ != r@[i + 1]@,
{
    let mut r: Vec<String> = Vec::new();
    let mut i: usize = 0;
    let ghost mut src: Seq<int> = Seq::empty();
    let ghost mut cov: Seq<int> = Seq::empty();
    while i < v.len()
        invariant
            i <= v@.len(),
            forall|a: int, b: int| 0 <= a < b < v@.len() ==> lex_le(v@[a]@, v@[b]@),
            src.len() == r@.len(),
            forall|a: int|
                0 <= a < r@.len() ==> 0 <= #[trigger] src[a] < i && r@[a]@ == v@[src[a]]@,
            cov.len() == i,
            forall|k: int|
                0 <= k < i ==> 0 <= #[trigger] cov[k] < r@.len() && r@[cov[k]]@ == v@[k]@,
            forall|a: int, b: int| 0 <= a < b < r@.len() ==> lex_le(r@[a]@, r@[b]@),
            forall|a: int| 0 <= a < r@.len() - 1 ==> (#[trigger] r@[a])@ != r@[a + 1]@,
            r@.len() > 0 ==> i > 0 && r@.last()@ == v@[i - 1]@,
        decreases v@.len() - i,
    {
        let keep: bool = if r.len() == 0 {
            true
        } else {
            !str_eq(r[r.len() - 1].as_str(), v[i].as_str())
        };
        let ghost old_r = r@;
        if keep {
            r.push(v[i].clone());
            proof {
                src = src.push(i as int);
                assert(r@.last()@ == v@[i as int]@);
                assert forall|a: int, b: int| 0 <= a < b < r@.len() implies lex_le(
                    r@[a]@,
                    r@[b]@,
                ) by {
                    if b < r@.len() - 1 {
                        assert(lex_le(old_r[a]@, old_r[b]@));
                    } else {
                        assert(r@[a]@ == v@[src[a]]@ && src[a] < i);
                        assert(lex_le(v@[src[a]]@, v@[i as int]@));
                    }
                }
            }
        }
        proof {
            cov = cov.push(r@.len() - 1);
            assert(r@.last()@ == v@[i as int]@);
        }
        i += 1;
    }
    proof {
        assert forall|a: int| #![trigger r@[a]] 0 <= a < r@.len() implies exists|j: int|
            0 <= j < v@.len() && r@[a]@ == v@[j]@ by {
            assert(0 <= src[a] < v@.len() && r@[a]@ == v@[src[a]]@);
        }
        assert forall|j: int| 0 <= j < v@.len() implies has_str(r@, (#[trigger] v@[j])@) by {
            assert(0 <= cov[j] < r@.len() && r@[cov[j]]@ == v@[j]@);
        }
    }
    r
}

/// A precomputed centroid for a relation whose boundary the caller
/// resolved, used when no admin-centre node is tagged.
#[derive(Clone, Copy, Debug, PartialEq, Eq, Structural)]
pub struct RelCentroid {
    pub rel_id: i64,
    pub coord: Coord,
}

/// The largest population of the admins at one level.
pub open spec fn max_pop(s: Seq<Admin>, lvl: u32) -> nat
    decreases s.len(),
{
    if s.len() == 0 {
        0
    } else {
        let rest = max_pop(s.drop_last(), lvl);
        let p: nat = if s.last().level == lvl {
            s.last().population as nat
        } else {
            0
        };
        if p > rest {
            p
        } else {
            rest
        }
    }
}

proof fn lemma_max_pop_ge(s: Seq<Admin>, lvl: u32, i: int)
    requires
        0 <= i < s.len(),
        s[i].level == lvl,
    ensures
        s[i].population as nat <= max_pop(s, lvl),
    decreases s.len(),
{
    if i == s.len() - 1 {
    } else {
        lemma_max_pop_ge(s.drop_last(), lvl, i);
        assert(s.drop_last()[i] == s[i]);
    }
}

proof fn lemma_max_pop_attained(s: Seq<Admin>, lvl: u32)
    requires
        max_pop(s, lvl) > 0,
    ensures
        exists|j: int|
            0 <= j < s.len() && (#[trigger] s[j]).level == lvl && s[j].population as nat
                == max_pop(s, lvl),
    decreases s.len(),
{
    let last_p: nat = if s.last().level == lvl {
        s.last().population as nat
    } else {
        0
    };
    if last_p == max_pop(s, lvl) {
        assert(s[s.len() - 1].level == lvl && s[s.len() - 1].population as nat == max_pop(
            s,
            lvl,
        ));
    } else {
        lemma_max_pop_attained(s.drop_last(), lvl);
        let j = choose|j: int|
            0 <= j < s.drop_last().len() && (#[trigger] s.drop_last()[j]).level == lvl
                && s.drop_last()[j].population as nat == max_pop(s.drop_last(), lvl);
        assert(s.drop_last()[j] == s[j]);
        assert(s[j].level == lvl && s[j].population as nat == max_pop(s, lvl));
    }
}

/// The normalized weight of an admin within a collection: its population
/// over the level's maximum, in millionths; zero where the level has no
/// population at all.
pub open spec fn spec_normalized_weight(s: Seq<Admin>, a: Admin) -> nat {
    let m = max_pop(s, a.level);
    if m == 0 {
        0
    } else {
        ((a.population as nat) * (PPM as nat)) / m
    }
}

/// Two admins equal in everything but the weight.
pub open spec fn same_admin_but_weight(a: Admin, b: Admin) -> bool {
    &&& b.id == a.id
    &&& b.insee == a.insee
    &&& b.level == a.level
    &&& b.name == a.name
    &&& b.label == a.label
    &&& b.zip_codes@ == a.zip_codes@
    &&& b.population == a.population
    &&& b.coord == a.coord
    &&& b.zone_type == a.zone_type
    &&& b.parent_id == a.parent_id
    &&& b.codes@ == a.codes@
    &&& b.country_codes@ == a.country_codes@
    &&& b.distance == a.distance
}

/// Some admin of the level carries the full weight of one unit.
pub open spec fn level_has_max_weight(s: Seq<Admin>, lvl: u32) -> bool {
    exists|j: int| 0 <= j < s.len() && (#[trigger] s[j]).level == lvl && s[j].weight == PPM
}

fn clone_codes(v: &Vec<PropertyCode>) -> (r: Vec<PropertyCode>)
    ensures
        r@ == v@,
{
    let mut r: Vec<PropertyCode> = Vec::new();
    let mut i: usize = 0;
    while i < v.len()
        invariant
            i <= v@.len(),
            r@ =~= v@.take(i as int),
        decreases v@.len() - i,
    {
        let c = PropertyCode { key: v[i].key.clone(), value: v[i].value.clone() };
        proof {
            assert(c == v@[i as int]);
        }
        r.push(c);
        proof {
            assert(r@ =~= v@.take(i as int + 1));
        }
        i += 1;
    }
    proof {
        assert(v@.take(v@.len() as int) =~= v@);
    }
    r
}

pub(crate) fn clone_admin_with_weight(a: &Admin, w: u64) -> (r: Admin)
    ensures
        same_admin_but_weight(*a, r),
        r.weight == w,
{
    Admin {
        id: a.id.clone(),
        insee: a.insee.clone(),
        level: a.level,
        name: a.name.clone(),
        label: a.label.clone(),
        zip_codes: clone_strings(&a.zip_codes),
        population: a.population,
        weight: w,
        coord: a.coord,
        zone_type: a.zone_type,
        parent_id: match &a.parent_id {
            Some(p) => Some(p.clone()),
            None => None,
        },
        codes: clone_codes(&a.codes),
        country_codes: clone_strings(&a.country_codes),
        distance: a.distance,
    }
}

fn level_max_pop(admins: &Vec<Admin>, lvl: u32) -> (m: u64)
    ensures
        m as nat == max_pop(admins@, lvl),
{
    let mut m: u64 = 0;
    let mut j: usize = 0;
    proof {
        assert(admins@.take(0) =~= Seq::<Admin>::empty());
    }
    while j < admins.len()
        invariant
            j <= admins@.len(),
            m as nat == max_pop(admins@.take(j as int), lvl),
        decreases admins@.len() - j,
    {
        proof {
            assert(admins@.take(j as int + 1).drop_last() =~= admins@.take(j as int));
            assert(admins@.take(j as int + 1).last() == admins@[j as int]);
        }
        if admins[j].level == lvl && admins[j].population > m {
            m = admins[j].population;
        }
        j += 1;
    }
    proof {
        assert(admins@.take(admins@.len() as int) =~= admins@);
    }
    m
}

/// Scales every admin's weight to its share of its level's largest
/// population, so the largest becomes exactly one unit; levels without any
/// population stay at zero. All other fields are left as they are.
pub fn normalize_admin_weight(admins: &mut Vec<Admin>)
    ensures
        final(admins)@.len() == old(admins)@.len(),
        forall|i: int|
            0 <= i < final(admins)@.len() ==> same_admin_but_weight(
                old(admins)@[i],
                #[trigger] final(admins)@[i],
            ) && final(admins)@[i].weight as nat == spec_normalized_weight(
                old(admins)@,
                old(admins)@[i],
            ),
{
    let ghost orig = admins@;
    let mut result: Vec<Admin> = Vec::new();
    let mut i: usize = 0;
    while i < admins.len()
        invariant
            i <= admins@.len(),
            admins@ == orig,
            result@.len() == i,
            forall|k: int|
                0 <= k < i ==> same_admin_but_weight(orig[k], #[trigger] result@[k])
                    && result@[k].weight as nat == spec_normalized_weight(orig, orig[k]),
        decreases admins@.len() - i,
    {
        let lvl = admins[i].level;
        let m = level_max_pop(admins, lvl);
        let w: u64 = if m == 0 {
            0
        } else {
            proof {
                lemma_max_pop_ge(orig, lvl, i as int);
            }
            let num: u128 = (admins[i].population as u128) * (PPM as u128);
            let q: u128 = num / (m as u128);
            proof {
                lemma_fundamental_div_mod(num as int, m as int);
                assert(q <= PPM) by (nonlinear_arith)
                    requires
                        m > 0,
                        num == (admins@[i as int].population as u128) * (PPM as u128),
                        admins@[i as int].population <= m,
                        num == m as int * q + (num as int % m as int),
                        0 <= (num as int % m as int),
                ;
            }
            q as u64
        };
        result.push(clone_admin_with_weight(&admins[i], w));
        i += 1;
    }
    *admins = result;
}

/// Law: after normalization every weight is at most one unit, and every
/// level holding any population has an admin at exactly one unit.
pub proof fn lemma_admin_weights_normalized(olds: Seq<Admin>, news: Seq<Admin>)
    requires
        news.len() == olds.len(),
        forall|i: int|
            0 <= i < news.len() ==> same_admin_but_weight(olds[i], #[trigger] news[i])
                && news[i].weight as nat == spec_normalized_weight(olds, olds[i]),
    ensures
        forall|i: int| 0 <= i < news.len() ==> (#[trigger] news[i]).weight <= PPM,
        forall|i: int|
            0 <= i < news.len() && (#[trigger] news[i]).population > 0 ==> level_has_max_weight(
                news,
                news[i].level,
            ),
{
    assert forall|i: int| 0 <= i < news.len() implies (#[trigger] news[i]).weight <= PPM by {
        let lvl = olds[i].level;
        let m = max_pop(olds, lvl);
        if m > 0 {
            lemma_max_pop_ge(olds, lvl, i);
            lemma_fundamental_div_mod((olds[i].population as nat * PPM as nat) as int, m as int);
            assert(news[i].weight as nat <= PPM) by (nonlinear_arith)
                requires
                    m > 0,
                    olds[i].population as nat <= m,
                    news[i].weight as nat == (olds[i].population as nat * PPM as nat) / m,
                    olds[i].population as nat * PPM as nat == m as int * ((olds[i].population
                        as nat * PPM as nat) as int / m as int) + ((olds[i].population as nat
                        * PPM as nat) as int % m as int),
                    0 <= ((olds[i].population as nat * PPM as nat) as int % m as int),
            ;
        }
    }
    assert forall|i: int|
        0 <= i < news.len() && (#[trigger] news[i]).population > 0 implies level_has_max_weight(
        news,
        news[i].level,
    ) by {
        let lvl = olds[i].level;
        lemma_max_pop_ge(olds, lvl, i);
        let m = max_pop(olds, lvl);
        assert(m > 0);
        lemma_max_pop_attained(olds, lvl);
        let j = choose|j: int|
            0 <= j < olds.len() && (#[trigger] olds[j]).level == lvl && olds[j].population as nat
                == max_pop(olds, lvl);
        lemma_div_multiples_vanish(PPM as int, m as int);
        assert((m * PPM as nat) as int / m as int == PPM as int);
        assert(news[j].weight as nat == (olds[j].population as nat * PPM as nat) / m);
        assert(olds[j].population as nat * PPM as nat == m * PPM as nat) by (nonlinear_arith)
            requires
                olds[j].population as nat == m,
        ;
        assert(news[j].weight == PPM);
        assert(news[j].level == lvl);
    }
}

/// The insee code of a relation: the `ref:INSEE` tag with leading zeros
/// stripped.
pub fn read_insee(tags: &Tags) -> (r: Option<String>)
    ensures
        r is Some <==> spec_tags_get(tags.entries@, "ref:INSEE"@) is Some,
        r is Some ==> r->Some_0@ == trim_zeros(
            spec_tags_get(tags.entries@, "ref:INSEE"@)->Some_0,
        ),
{
    match tags.get("ref:INSEE") {
        Some(v) => Some(trim_leading_zeros(v.as_str())),
        None => None,
    }
}


/// The member id a relation names with the admin-centre role, if any.
pub open spec fn spec_admin_centre(refs: Seq<OsmRef>) -> Option<OsmId>
    decreases refs.len(),
{
    if refs.len() == 0 {
        None
    } else if refs[0].role@ == "admin_centre"@ {
        Some(refs[0].member)
    } else {
        spec_admin_centre(refs.skip(1))
    }
}

fn find_admin_centre(rel: &OsmRelation) -> (r: Option<OsmId>)
    ensures
        r == spec_admin_centre(rel.refs@),
{
    let mut i: usize = 0;
    proof {
        assert(rel.refs@.skip(0) =~= rel.refs@);
    }
    while i < rel.refs.len()
        invariant
            i <= rel.refs@.len(),
            spec_admin_centre(rel.refs@) == spec_admin_centre(rel.refs@.skip(i as int)),
        decreases rel.refs@.len() - i,
    {
        proof {
            assert(rel.refs@.skip(i as int)[0] == rel.refs@[i as int]);
            assert(rel.refs@.skip(i as int).skip(1) =~= rel.refs@.skip(i as int + 1));
        }
        if str_eq(rel.refs[i].role.as_str(), "admin_centre") {
            return Some(rel.refs[i].member);
        }
        i += 1;
    }
    None
}

/// The population a tag list gives, taken only where it is a plain decimal
/// number.
pub open spec fn spec_tag_population(tags: Tags) -> Option<u64> {
    match spec_tags_get(tags.entries@, "population"@) {
        None => None,
        Some(v) => if v.len() > 0 && all_digits(v) && dec_val(v) <= u64::MAX {
            Some(dec_val(v) as u64)
        } else {
            None
        },
    }
}

fn read_tag_population(tags: &Tags) -> (r: Option<u64>)
    ensures
        r == spec_tag_population(*tags),
{
    match tags.get("population") {
        None => None,
        Some(v) => parse_u64(v.as_str()),
    }
}

/// The centroid registered for a relation, if any.
pub open spec fn spec_find_centroid(cs: Seq<RelCentroid>, rel_id: i64) -> Option<Coord>
    decreases cs.len(),
{
    if cs.len() == 0 {
        None
    } else if cs[0].rel_id == rel_id {
        Some(cs[0].coord)
    } else {
        spec_find_centroid(cs.skip(1), rel_id)
    }
}

fn find_centroid(cs: &Vec<RelCentroid>, rel_id: i64) -> (r: Option<Coord>)
    ensures
        r == spec_find_centroid(cs@, rel_id),
{
    let mut i: usize = 0;
    proof {
        assert(cs@.skip(0) =~= cs@);
    }
    while i < cs.len()
        invariant
            i <= cs@.len(),
            spec_find_centroid(cs@, rel_id) == spec_find_centroid(cs@.skip(i as int), rel_id),
        decreases cs@.len() - i,
    {
        proof {
            assert(cs@.skip(i as int)[0] == cs@[i as int]);
            assert(cs@.skip(i as int).skip(1) =~= cs@.skip(i as int + 1));
        }
        if cs[i].rel_id == rel_id {
            return Some(cs[i].coord);
        }
        i += 1;
    }
    None
}

/// The keyed codes a tag list carries: every pair whose key starts with
/// the country-code prefix, in tag order.
pub open spec fn spec_iso_codes(entries: Seq<Tag>) -> Seq<(Seq<char>, Seq<char>)>
    decreases entries.len(),
{
    if entries.len() == 0 {
        Seq::<(Seq<char>, Seq<char>)>::empty()
    } else {
        let rest = spec_iso_codes(entries.drop_last());
        if spec_has_prefix(entries.last().key@, "ISO3166"@) {
            rest.push((entries.last().key@, entries.last().value@))
        } else {
            rest
        }
    }
}

/// The keyed codes of a relation: exactly the tags whose key starts with
/// the country-code prefix, in tag order.
fn read_osm_codes(tags: &Tags) -> (r: Vec<PropertyCode>)
    ensures
        r@.map_values(|c: PropertyCode| (c.key@, c.value@)) == spec_iso_codes(tags.entries@),
{
    let mut r: Vec<PropertyCode> = Vec::new();
    let mut i: usize = 0;
    proof {
        assert(r@.map_values(|c: PropertyCode| (c.key@, c.value@)) =~= spec_iso_codes(
            tags.entries@.take(0),
        ));
    }
    while i < tags.entries.len()
        invariant
            i <= tags.entries@.len(),
            r@.map_values(|c: PropertyCode| (c.key@, c.value@)) == spec_iso_codes(
                tags.entries@.take(i as int),
            ),
        decreases tags.entries@.len() - i,
    {
        proof {
            assert(tags.entries@.take(i as int + 1).drop_last() =~= tags.entries@.take(
                i as int,
            ));
            assert(tags.entries@.take(i as int + 1).last() == tags.entries@[i as int]);
        }
        if str_has_prefix(tags.entries[i].key.as_str(), "ISO3166") {
            r.push(PropertyCode {
                key: tags.entries[i].key.clone(),
                value: tags.entries[i].value.clone(),
            });
        }
        proof {
            assert(r@.map_values(|c: PropertyCode| (c.key@, c.value@)) =~= spec_iso_codes(
                tags.entries@.take(i as int + 1),
            ));
        }
        i += 1;
    }
    proof {
        assert(tags.entries@.take(tags.entries@.len() as int) =~= tags.entries@);
    }
    r
}

/// The country code of a relation: the value of its alpha-2 code, if any.
fn read_country_codes(tags: &Tags) -> (r: Vec<String>)
    ensures
        match spec_tags_get(tags.entries@, "ISO3166-1:alpha2"@) {
            Some(v) => r@.len() == 1 && r@[0]@ == v,
            None => r@.len() == 0,
        },
{
    let mut r: Vec<String> = Vec::new();
    match tags.get("ISO3166-1:alpha2") {
        Some(v) => {
            r.push(v.clone());
        },
        None => {},
    }
    r
}

/// The trimmed insee code of a tag list, if the tag is present.
pub open spec fn spec_tags_insee(tags: Tags) -> Option<Seq<char>> {
    match spec_tags_get(tags.entries@, "ref:INSEE"@) {
        Some(v) => Some(trim_zeros(v)),
        None => None,
    }
}

/// The coordinate an admin relation resolves to: its admin-centre node's
/// position, else the centroid the caller supplied, else the origin.
pub open spec fn spec_admin_coord(
    objs: OsmCollection,
    centroids: Seq<RelCentroid>,
    rel: OsmRelation,
) -> Coord {
    match spec_admin_centre(rel.refs@) {
        Some(OsmId::Node(nid)) => match crate::osm::spec_find_node(objs.nodes@, nid) {
            Some(n) => n.coord,
            None => spec_admin_fallback_coord(centroids, rel.id),
        },
        _ => spec_admin_fallback_coord(centroids, rel.id),
    }
}

pub open spec fn spec_admin_fallback_coord(centroids: Seq<RelCentroid>, rel_id: i64) -> Coord {
    match spec_find_centroid(centroids, rel_id) {
        Some(c) => c,
        None => Coord { lon_micro: 0, lat_micro: 0 },
    }
}

/// The raw population of an admin relation: its own population tag when it
/// is a plain decimal number, else its admin-centre node's, else zero.
pub open spec fn spec_admin_population(objs: OsmCollection, rel: OsmRelation) -> u64 {
    match spec_tag_population(rel.tags) {
        Some(p) => p,
        None => match spec_admin_centre(rel.refs@) {
            Some(OsmId::Node(nid)) => match crate::osm::spec_find_node(objs.nodes@, nid) {
                Some(n) => match spec_tag_population(n.tags) {
                    Some(p) => p,
                    None => 0,
                },
                None => 0,
            },
            _ => 0,
        },
    }
}

/// Everything an admin record carries, apart from its id and weight, as a
/// function of its source relation: parsed level, the relation's name,
/// the label with the zip suffix, zip codes read from the relation, the
/// trimmed insee, the city classification, the resolved coordinate and
/// population, and the keyed codes.
pub open spec fn spec_admin_fields(
    a: Admin,
    rel: OsmRelation,
    objs: OsmCollection,
    centroids: Seq<RelCentroid>,
    city_level: u32,
) -> bool {
    &&& match spec_tags_get(rel.tags.entries@, "admin_level"@) {
        Some(v) => a.level as nat == dec_val(v),
        None => false,
    }
    &&& match spec_tags_get(rel.tags.entries@, "name"@) {
        Some(n) => a.name@ == n && n.len() > 0,
        None => false,
    }
    &&& a.label@ == a.name@ + spec_zip_suffix(a.zip_codes@)
    &&& zips_wf(a.zip_codes@, rel.tags)
    &&& match spec_tags_insee(rel.tags) {
        Some(ins) => a.insee@ == ins,
        None => a.insee@ =~= Seq::<char>::empty(),
    }
    &&& a.zone_type == spec_zone_type(a.level, city_level)
    &&& a.coord == spec_admin_coord(objs, centroids, rel)
    &&& a.population == spec_admin_population(objs, rel)
    &&& a.parent_id is None
    &&& a.distance is None
    &&& match spec_tags_get(rel.tags.entries@, "ISO3166-1:alpha2"@) {
        Some(v) => a.country_codes@.len() == 1 && a.country_codes@[0]@ == v,
        None => a.country_codes@.len() == 0,
    }
    &&& a.codes@.map_values(|c: PropertyCode| (c.key@, c.value@)) == spec_iso_codes(
        rel.tags.entries@,
    )
}

/// Whether some earlier kept relation already bears this insee code.
pub open spec fn spec_insee_claimed_before(kept: Seq<OsmRelation>, i: int, ins: Seq<char>) -> bool {
    exists|j: int| 0 <= j < i && spec_tags_insee((#[trigger] kept[j]).tags) == Some(ins)
}

/// The id of the i-th kept admin: the insee-based form for the first claim
/// of each insee code, the relation-id form otherwise.
pub open spec fn spec_admin_id(kept: Seq<OsmRelation>, i: int) -> Seq<char> {
    match spec_tags_insee(kept[i].tags) {
        Some(ins) => if !spec_insee_claimed_before(kept, i, ins) {
            "admin:fr:"@ + ins
        } else {
            "admin:osm:relation:"@ + dec_digits_signed(kept[i].id as int)
        },
        None => "admin:osm:relation:"@ + dec_digits_signed(kept[i].id as int),
    }
}

proof fn lemma_admin_id_push(kept: Seq<OsmRelation>, rel: OsmRelation, k: int)
    requires
        0 <= k < kept.len(),
    ensures
        spec_admin_id(kept.push(rel), k) == spec_admin_id(kept, k),
{
    let extended = kept.push(rel);
    assert(extended[k] == kept[k]);
    match spec_tags_insee(kept[k].tags) {
        Some(ins) => {
            if spec_insee_claimed_before(kept, k, ins) {
                let j = choose|j: int|
                    0 <= j < k && spec_tags_insee((#[trigger] kept[j]).tags) == Some(ins);
                assert(extended[j] == kept[j]);
                assert(spec_insee_claimed_before(extended, k, ins));
            }
            if spec_insee_claimed_before(extended, k, ins) {
                let j = choose|j: int|
                    0 <= j < k && spec_tags_insee((#[trigger] extended[j]).tags) == Some(ins);
                assert(kept[j] == extended[j]);
                assert(spec_insee_claimed_before(kept, k, ins));
            }
        },
        None => {},
    }
}

proof fn lemma_max_pop_congruent(s1: Seq<Admin>, s2: Seq<Admin>, lvl: u32)
    requires
        s1.len() == s2.len(),
        forall|i: int|
            0 <= i < s1.len() ==> (#[trigger] s2[i]).level == s1[i].level && s2[i].population
                == s1[i].population,
    ensures
        max_pop(s1, lvl) == max_pop(s2, lvl),
    decreases s1.len(),
{
    if s1.len() > 0 {
        assert(forall|i: int|
            0 <= i < s1.drop_last().len() ==> (#[trigger] s2.drop_last()[i]).level
                == s1.drop_last()[i].level && s2.drop_last()[i].population == s1.drop_last()[i].population);
        lemma_max_pop_congruent(s1.drop_last(), s2.drop_last(), lvl);
        assert(s2.last().level == s1.last().level && s2.last().population
            == s1.last().population);
    }
}

/// Resolves the id of one admin record, claiming its insee code: the first
/// relation bearing an insee gets the insee-based id and the code is
/// claimed; later bearers and relations without an insee get the
/// relation-id form. Returns the id and the record's insee field.
fn claim_admin_id(insee_claimed: &mut Vec<String>, tags: &Tags, rel_id: i64) -> (r: (
    String,
    String,
))
    ensures
        match spec_tags_insee(*tags) {
            Some(ins) => r.1@ == ins && (if !has_str(old(insee_claimed)@, ins) {
                r.0@ == "admin:fr:"@ + ins && (forall|x: Seq<char>|
                    #[trigger] has_str(final(insee_claimed)@, x) <==> (has_str(
                        old(insee_claimed)@,
                        x,
                    ) || x == ins))
            } else {
                r.0@ == "admin:osm:relation:"@ + dec_digits_signed(rel_id as int)
                    && final(insee_claimed)@ == old(insee_claimed)@
            }),
            None => r.1@ =~= Seq::<char>::empty() && r.0@ == "admin:osm:relation:"@
                + dec_digits_signed(rel_id as int)
                && final(insee_claimed)@ == old(insee_claimed)@,
        },
{
    match read_insee(tags) {
        Some(val) => {
            if !contains_string(insee_claimed, &val) {
                let ghost before = insee_claimed@;
                insee_claimed.push(val.clone());
                proof {
                    assert forall|x: Seq<char>|
                        #[trigger] has_str(insee_claimed@, x) <==> (has_str(before, x) || x
                            == val@) by {
                        if has_str(insee_claimed@, x) {
                            let j = choose|j: int|
                                0 <= j < insee_claimed@.len() && insee_claimed@[j]@ == x;
                            if j < before.len() {
                                assert(before[j]@ == x);
                                assert(has_str(before, x));
                            } else {
                                assert(x == val@);
                            }
                        }
                        if has_str(before, x) {
                            let j = choose|j: int| 0 <= j < before.len() && before[j]@ == x;
                            assert(insee_claimed@[j]@ == x);
                            assert(has_str(insee_claimed@, x));
                        }
                        if x == val@ {
                            assert(insee_claimed@[insee_claimed@.len() - 1]@ == x);
                            assert(has_str(insee_claimed@, x));
                        }
                    }
                }
                (String::from_str("admin:fr:").concat(val.as_str()), val)
            } else {
                let mut id = String::from_str("admin:osm:relation:");
                crate::text::push_dec_signed(&mut id, rel_id);
                (id, val)
            }
        },
        None => {
            let mut id = String::from_str("admin:osm:relation:");
            crate::text::push_dec_signed(&mut id, rel_id);
            (id, String::new())
        },
    }
}

/// Whether a relation yields an admin record: it is an administrative
/// boundary of a requested level, its level tag is a plain decimal number,
/// and it carries a non-empty name.
pub open spec fn spec_admin_kept(levels: Set<u32>, rel: OsmRelation) -> bool {
    &&& spec_is_admin_rel(levels, rel)
    &&& match spec_tags_get(rel.tags.entries@, "name"@) {
        Some(n) => n.len() > 0,
        None => false,
    }
}

/// The relations that yield an admin record, in reading order.
pub open spec fn spec_kept_relations(levels: Set<u32>, rels: Seq<OsmRelation>) -> Seq<
    OsmRelation,
>
    decreases rels.len(),
{
    if rels.len() == 0 {
        Seq::<OsmRelation>::empty()
    } else {
        let rest = spec_kept_relations(levels, rels.drop_last());
        if spec_admin_kept(levels, rels.last()) {
            rest.push(rels.last())
        } else {
            rest
        }
    }
}

proof fn lemma_kept_member(levels: Set<u32>, rels: Seq<OsmRelation>, i: int)
    requires
        0 <= i < spec_kept_relations(levels, rels).len(),
    ensures
        exists|a: int|
            0 <= a < rels.len() && spec_kept_relations(levels, rels)[i] == #[trigger] rels[a],
    decreases rels.len(),
{
    let kept = spec_kept_relations(levels, rels);
    let rest = spec_kept_relations(levels, rels.drop_last());
    if spec_admin_kept(levels, rels.last()) && i == kept.len() - 1 {
        assert(kept[i] == rels[rels.len() - 1]);
    } else {
        assert(kept[i] == rest[i]);
        lemma_kept_member(levels, rels.drop_last(), i);
        let a = choose|a: int|
            0 <= a < rels.drop_last().len() && rest[i] == #[trigger] rels.drop_last()[a];
        assert(kept[i] == rels[a]);
    }
}

proof fn lemma_kept_pair(levels: Set<u32>, rels: Seq<OsmRelation>, i: int, j: int)
    requires
        0 <= i < j < spec_kept_relations(levels, rels).len(),
    ensures
        exists|a: int, b: int|
            0 <= a < b < rels.len() && spec_kept_relations(levels, rels)[i] == #[trigger] rels[a]
                && spec_kept_relations(levels, rels)[j] == #[trigger] rels[b],
    decreases rels.len(),
{
    let kept = spec_kept_relations(levels, rels);
    let rest = spec_kept_relations(levels, rels.drop_last());
    if spec_admin_kept(levels, rels.last()) && j == kept.len() - 1 {
        assert(kept[i] == rest[i]);
        lemma_kept_member(levels, rels.drop_last(), i);
        let a = choose|a: int|
            0 <= a < rels.drop_last().len() && rest[i] == #[trigger] rels.drop_last()[a];
        assert(kept[i] == rels[a] && kept[j] == rels[rels.len() - 1]);
        assert(0 <= a < rels.len() - 1 < rels.len());
    } else {
        assert(kept[i] == rest[i] && kept[j] == rest[j]);
        lemma_kept_pair(levels, rels.drop_last(), i, j);
        let (a, b) = choose|a: int, b: int|
            0 <= a < b < rels.drop_last().len() && rest[i] == #[trigger] rels.drop_last()[a]
                && rest[j] == #[trigger] rels.drop_last()[b];
        assert(kept[i] == rels[a] && kept[j] == rels[b]);
    }
}

/// Law: over source relations with pairwise-distinct ids — what an
/// id-keyed reader yields — the emitted admin ids are pairwise distinct:
/// each insee code names at most one record, and relation-id forms collide
/// neither with insee forms nor with one another.
pub proof fn lemma_admin_ids_distinct(levels: Set<u32>, rels: Seq<OsmRelation>, i: int, j: int)
    requires
        forall|a: int, b: int|
            0 <= a < b < rels.len() ==> (#[trigger] rels[a]).id != (#[trigger] rels[b]).id,
        0 <= i < j < spec_kept_relations(levels, rels).len(),
    ensures
        spec_admin_id(spec_kept_relations(levels, rels), i) != spec_admin_id(
            spec_kept_relations(levels, rels),
            j,
        ),
{
    let kept = spec_kept_relations(levels, rels);
    lemma_kept_pair(levels, rels, i, j);
    let (a, b) = choose|a: int, b: int|
        0 <= a < b < rels.len() && kept[i] == #[trigger] rels[a] && kept[j] == #[trigger] rels[b];
    assert(kept[i].id != kept[j].id);
    let id_i = spec_admin_id(kept, i);
    let id_j = spec_admin_id(kept, j);
    let fr = "admin:fr:"@;
    let osm = "admin:osm:relation:"@;
    reveal_strlit("admin:fr:");
    reveal_strlit("admin:osm:relation:");
    assert(fr[6] == 'f' && osm[6] == 'o');
    let fr_i = match spec_tags_insee(kept[i].tags) {
        Some(ins) => !spec_insee_claimed_before(kept, i, ins),
        None => false,
    };
    let fr_j = match spec_tags_insee(kept[j].tags) {
        Some(ins) => !spec_insee_claimed_before(kept, j, ins),
        None => false,
    };
    if fr_i && fr_j {
        let ins_i = spec_tags_insee(kept[i].tags)->Some_0;
        let ins_j = spec_tags_insee(kept[j].tags)->Some_0;
        if ins_i == ins_j {
            assert(spec_tags_insee((kept[i]).tags) == Some(ins_j));
            assert(spec_insee_claimed_before(kept, j, ins_j));
            assert(false);
        }
        if id_i == id_j {
            assert((fr + ins_i).skip(fr.len() as int) =~= ins_i);
            assert((fr + ins_j).skip(fr.len() as int) =~= ins_j);
            assert(false);
        }
    } else if fr_i && !fr_j {
        if id_i == id_j {
            let ins_i = spec_tags_insee(kept[i].tags)->Some_0;
            assert((fr + ins_i)[6] == 'f');
            assert((osm + dec_digits_signed(kept[j].id as int))[6] == 'o');
            assert(false);
        }
    } else if !fr_i && fr_j {
        if id_i == id_j {
            let ins_j = spec_tags_insee(kept[j].tags)->Some_0;
            assert((fr + ins_j)[6] == 'f');
            assert((osm + dec_digits_signed(kept[i].id as int))[6] == 'o');
            assert(false);
        }
    } else {
        if id_i == id_j {
            let di = dec_digits_signed(kept[i].id as int);
            let dj = dec_digits_signed(kept[j].id as int);
            assert((osm + di).skip(osm.len() as int) =~= di);
            assert((osm + dj).skip(osm.len() as int) =~= dj);
            assert(di == dj);
            crate::text::lemma_dec_digits_signed_injective(
                kept[i].id as int,
                kept[j].id as int,
            );
            assert(false);
        }
    }
}

/// Builds one admin record per administrative boundary relation of the
/// requested levels, in reading order: parsed level, required non-empty
/// name, insee-based id with first-claim-wins collision fallback,
/// admin-centre or precomputed centroid, population from the relation or
/// its centre node, sorted zip codes, and the label with the zip suffix.
/// Weights are then normalized per level.
pub fn read_administrative_regions(
    objs: &OsmCollection,
    levels: HashSet<u32>,
    city_level: u32,
    centroids: &Vec<RelCentroid>,
) -> (r: Vec<Admin>)
    ensures
        r@.len() == spec_kept_relations(levels@, objs.relations@).len(),
        forall|i: int|
            0 <= i < r@.len() ==> spec_admin_fields(
                #[trigger] r@[i],
                spec_kept_relations(levels@, objs.relations@)[i],
                *objs,
                centroids@,
                city_level,
            ),
        forall|i: int|
            0 <= i < r@.len() ==> (#[trigger] r@[i]).id@ == spec_admin_id(
                spec_kept_relations(levels@, objs.relations@),
                i,
            ),
        forall|i: int|
            0 <= i < r@.len() ==> (#[trigger] r@[i]).weight as nat == spec_normalized_weight(
                r@,
                r@[i],
            ),
        forall|i: int| 0 <= i < r@.len() && (#[trigger] r@[i]).population == 0 ==> r@[i].weight == 0,
        forall|i: int| 0 <= i < r@.len() ==> (#[trigger] r@[i]).weight <= PPM,
        forall|i: int|
            0 <= i < r@.len() && (#[trigger] r@[i]).population > 0 ==> level_has_max_weight(
                r@,
                r@[i].level,
            ),
{
    let ghost level_set = levels@;
    let matcher = AdminMatcher::new(levels);
    let mut admins: Vec<Admin> = Vec::new();
    let mut insee_claimed: Vec<String> = Vec::new();
    let ghost mut kept_sf: Seq<OsmRelation> = Seq::empty();
    let mut i: usize = 0;
    while i < objs.relations.len()
        invariant
            i <= objs.relations@.len(),
            matcher.spec_levels() == level_set,
            kept_sf == spec_kept_relations(level_set, objs.relations@.take(i as int)),
            admins@.len() == kept_sf.len(),
            forall|k: int|
                0 <= k < admins@.len() ==> spec_admin_fields(
                    #[trigger] admins@[k],
                    kept_sf[k],
                    *objs,
                    centroids@,
                    city_level,
                ),
            forall|k: int|
                0 <= k < admins@.len() ==> (#[trigger] admins@[k]).id@ == spec_admin_id(
                    kept_sf,
                    k,
                ),
            forall|v: Seq<char>|
                #[trigger] has_str(insee_claimed@, v) <==> spec_insee_claimed_before(
                    kept_sf,
                    kept_sf.len() as int,
                    v,
                ),
        decreases objs.relations@.len() - i,
    {
        proof {
            assert(objs.relations@.take(i as int + 1).drop_last() =~= objs.relations@.take(
                i as int,
            ));
            assert(objs.relations@.take(i as int + 1).last() == objs.relations@[i as int]);
        }
        let rel = &objs.relations[i];
        if !matcher.is_admin_relation(rel) {
            i += 1;
            continue;
        }
        let level: u32 = match rel.tags.get("admin_level") {
            Some(v) => match parse_u32(v.as_str()) {
                Some(l) => l,
                None => {
                    i += 1;
                    continue;
                },
            },
            None => {
                i += 1;
                continue;
            },
        };
        let name: String = match rel.tags.get("name") {
            Some(v) => {
                if v.as_str().unicode_len() == 0 {
                    i += 1;
                    continue;
                }
                v.clone()
            },
            None => {
                i += 1;
                continue;
            },
        };
        let centre_node: Option<&crate::osm::OsmNode> = match find_admin_centre(rel) {
            Some(OsmId::Node(nid)) => objs.node(nid),
            _ => None,
        };
        let ghost old_claimed = insee_claimed@;
        let (id, insee) = claim_admin_id(&mut insee_claimed, &rel.tags, rel.id);
        let coord: Coord = match centre_node {
            Some(n) => n.coord,
            None => match find_centroid(centroids, rel.id) {
                Some(c) => c,
                None => Coord { lon_micro: 0, lat_micro: 0 },
            },
        };
        let population: u64 = match read_tag_population(&rel.tags) {
            Some(p) => p,
            None => match centre_node {
                Some(n) => match read_tag_population(&n.tags) {
                    Some(p) => p,
                    None => 0,
                },
                None => 0,
            },
        };
        let zip_codes = read_zip_codes(&rel.tags);
        let label = name.clone().concat(format_zip_codes(&zip_codes).as_str());
        let admin = Admin {
            id,
            insee,
            level,
            name,
            label,
            zip_codes,
            population,
            weight: 0,
            coord,
            zone_type: get_zone_type(level, city_level),
            parent_id: None,
            codes: read_osm_codes(&rel.tags),
            country_codes: read_country_codes(&rel.tags),
            distance: None,
        };
        let ghost old_kept = kept_sf;
        let ghost rel_val = objs.relations@[i as int];
        proof {
            kept_sf = kept_sf.push(rel_val);
            assert(spec_admin_kept(level_set, rel_val));
            assert(spec_admin_fields(admin, rel_val, *objs, centroids@, city_level));
        }
        admins.push(admin);
        proof {
            let n = old_kept.len() as int;
            assert forall|k: int|
                0 <= k < admins@.len() implies (#[trigger] admins@[k]).id@ == spec_admin_id(
                kept_sf,
                k,
            ) by {
                if k < n {
                    lemma_admin_id_push(old_kept, rel_val, k);
                } else {
                    assert(kept_sf[n] == rel_val);
                    match spec_tags_insee(rel_val.tags) {
                        Some(ins) => {
                            assert(spec_insee_claimed_before(kept_sf, n, ins)
                                <==> spec_insee_claimed_before(old_kept, n, ins)) by {
                                if spec_insee_claimed_before(kept_sf, n, ins) {
                                    let j = choose|j: int|
                                        0 <= j < n && spec_tags_insee(
                                            (#[trigger] kept_sf[j]).tags,
                                        ) == Some(ins);
                                    assert(old_kept[j] == kept_sf[j]);
                                    assert(spec_insee_claimed_before(old_kept, n, ins));
                                }
                                if spec_insee_claimed_before(old_kept, n, ins) {
                                    let j = choose|j: int|
                                        0 <= j < n && spec_tags_insee(
                                            (#[trigger] old_kept[j]).tags,
                                        ) == Some(ins);
                                    assert(kept_sf[j] == old_kept[j]);
                                    assert(spec_insee_claimed_before(kept_sf, n, ins));
                                }
                            }
                            assert(has_str(old_claimed, ins) <==> spec_insee_claimed_before(
                                old_kept,
                                n,
                                ins,
                            ));
                        },
                        None => {},
                    }
                }
            }
            assert forall|k: int|
                0 <= k < admins@.len() implies spec_admin_fields(
                #[trigger] admins@[k],
                kept_sf[k],
                *objs,
                centroids@,
                city_level,
            ) by {
                if k < n {
                    assert(kept_sf[k] == old_kept[k]);
                }
            }
            assert forall|v: Seq<char>|
                #[trigger] has_str(insee_claimed@, v) <==> spec_insee_claimed_before(
                kept_sf,
                kept_sf.len() as int,
                v,
            ) by {
                let m = kept_sf.len() as int;
                if spec_insee_claimed_before(kept_sf, m, v) {
                    let j = choose|j: int|
                        0 <= j < m && spec_tags_insee((#[trigger] kept_sf[j]).tags) == Some(v);
                    if j < n {
                        assert(old_kept[j] == kept_sf[j]);
                        assert(spec_insee_claimed_before(old_kept, n, v));
                        assert(has_str(old_claimed, v));
                        match spec_tags_insee(rel_val.tags) {
                            Some(ins) => {
                                if has_str(old_claimed, ins) {
                                    assert(insee_claimed@ == old_claimed);
                                }
                            },
                            None => {
                                assert(insee_claimed@ == old_claimed);
                            },
                        }
                        assert(has_str(insee_claimed@, v));
                    } else {
                        assert(spec_tags_insee(rel_val.tags) == Some(v));
                        if has_str(old_claimed, v) {
                            assert(insee_claimed@ == old_claimed);
                        }
                        assert(has_str(insee_claimed@, v));
                    }
                }
                if has_str(insee_claimed@, v) {
                    match spec_tags_insee(rel_val.tags) {
                        Some(ins) => {
                            if !has_str(old_claimed, ins) {
                                if v == ins {
                                    assert(spec_tags_insee(kept_sf[n].tags) == Some(v));
                                    assert(spec_insee_claimed_before(kept_sf, m, v));
                                } else {
                                    assert(has_str(old_claimed, v));
                                    assert(spec_insee_claimed_before(old_kept, n, v));
                                    let j = choose|j: int|
                                        0 <= j < n && spec_tags_insee(
                                            (#[trigger] old_kept[j]).tags,
                                        ) == Some(v);
                                    assert(kept_sf[j] == old_kept[j]);
                                    assert(spec_insee_claimed_before(kept_sf, m, v));
                                }
                            } else {
                                assert(insee_claimed@ == old_claimed);
                                assert(spec_insee_claimed_before(old_kept, n, v));
                                let j = choose|j: int|
                                    0 <= j < n && spec_tags_insee(
                                        (#[trigger] old_kept[j]).tags,
                                    ) == Some(v);
                                assert(kept_sf[j] == old_kept[j]);
                                assert(spec_insee_claimed_before(kept_sf, m, v));
                            }
                        },
                        None => {
                            assert(insee_claimed@ == old_claimed);
                            assert(spec_insee_claimed_before(old_kept, n, v));
                            let j = choose|j: int|
                                0 <= j < n && spec_tags_insee((#[trigger] old_kept[j]).tags)
                                    == Some(v);
                            assert(kept_sf[j] == old_kept[j]);
                            assert(spec_insee_claimed_before(kept_sf, m, v));
                        },
                    }
                }
            }
        }
        i += 1;
    }
    proof {
        assert(objs.relations@.take(objs.relations@.len() as int) =~= objs.relations@);
    }
    let ghost before = admins@;
    normalize_admin_weight(&mut admins);
    proof {
        lemma_admin_weights_normalized(before, admins@);
        let kept = spec_kept_relations(level_set, objs.relations@);
        assert forall|k: int|
            0 <= k < admins@.len() implies spec_admin_fields(
            #[trigger] admins@[k],
            kept[k],
            *objs,
            centroids@,
            city_level,
        ) && admins@[k].id@ == spec_admin_id(kept, k) by {
            assert(same_admin_but_weight(before[k], admins@[k]));
            assert(spec_admin_fields(before[k], kept[k], *objs, centroids@, city_level));
        }
        assert forall|k: int|
            0 <= k < admins@.len() implies (#[trigger] admins@[k]).weight as nat
            == spec_normalized_weight(admins@, admins@[k]) && (admins@[k].population == 0
            ==> admins@[k].weight == 0) by {
            assert(forall|x: int|
                0 <= x < before.len() ==> (#[trigger] admins@[x]).level == before[x].level
                    && admins@[x].population == before[x].population);
            lemma_max_pop_congruent(before, admins@, before[k].level);
            let m = max_pop(before, before[k].level);
            if m > 0 && before[k].population == 0 {
                lemma_fundamental_div_mod((0 as nat * PPM as nat) as int, m as int);
                assert((0 as nat * PPM as nat) / (m as nat) == 0) by (nonlinear_arith)
                    requires
                        m > 0,
                        0 as nat * PPM as nat == m as int * (((0 as nat * PPM as nat) as int)
                            / (m as int)) + ((0 as nat * PPM as nat) as int % (m as int)),
                        0 <= ((0 as nat * PPM as nat) as int % (m as int)),
                        0 <= ((0 as nat * PPM as nat) as int) / (m as int),
                ;
            }
        }
    }
    admins
}

fn contains_string(v: &Vec<String>, s: &String) -> (r: bool)
    ensures
        r == has_str(v@, s@),
{
    let mut i: usize = 0;
    while i < v.len()
        invariant
            i <= v@.len(),
            forall|j: int| 0 <= j < i ==> v@[j]@ != s@,
        decreases v@.len() - i,
    {
        if str_eq(v[i].as_str(), s.as_str()) {
            return true;
        }
        i += 1;
    }
    false
}

} // verus!

//! Decisions of the address import: which records are kept, and the
//! per-country statistics key of a record. Reading the CSV streams and
//! writing the batches to the backend stay with the caller.

use vstd::prelude::*;
use crate::places::{Admin, ZoneType};
use crate::text::{has_str, lex_le, sorted_strings, clone_strings};

verus! {

/// An address with an empty street name is dropped rather than indexed.
pub fn addr_should_index(street_name: &str) -> (r: bool)
    ensures
        r == (street_name@.len() > 0),
{
    street_name.unicode_len() > 0
}

/// The first containing admin that is a country.
pub open spec fn spec_first_country(admins: Seq<Admin>) -> Option<Admin>
    decreases admins.len(),
{
    if admins.len() == 0 {
        None
    } else if admins[0].zone_type == Some(ZoneType::Country) {
        Some(admins[0])
    } else {
        spec_first_country(admins.skip(1))
    }
}

/// The statistics key of an address: the smallest country code of its
/// country admin, that admin's name when it has no codes, or the shared
/// fallback key when no country admin contains it.
pub fn addr_country_stat_key(admins: &Vec<Admin>) -> (r: String)
    ensures
        match spec_first_country(admins@) {
            None => r@ == "other"@,
            Some(a) => {
                if a.country_codes@.len() == 0 {
                    r@ == a.name@
                } else {
                    has_str(a.country_codes@, r@) && forall|i: int|
                        0 <= i < a.country_codes@.len() ==> lex_le(
                            r@,
                            (#[trigger] a.country_codes@[i])@,
                        )
                }
            },
        },
{
    broadcast use vstd::seq_lib::group_to_multiset_ensures;

    let mut i: usize = 0;
    proof {
        assert(admins@.skip(0) =~= admins@);
    }
    while i < admins.len()
        invariant
            i <= admins@.len(),
            spec_first_country(admins@) == spec_first_country(admins@.skip(i as int)),
        decreases admins@.len() - i,
    {
        proof {
            assert(admins@.skip(i as int)[0] == admins@[i as int]);
            assert(admins@.skip(i as int).skip(1) =~= admins@.skip(i as int + 1));
        }
        match admins[i].zone_type {
            Some(ZoneType::Country) => {
                if admins[i].country_codes.len() == 0 {
                    return admins[i].name.clone();
                }
                let sorted = sorted_strings(clone_strings(&admins[i].country_codes));
                let ghost codes = admins@[i as int].country_codes@;
                proof {
                    let kv = codes.map_values(|s: String| s@);
                    let sv = sorted@.map_values(|s: String| s@);
                    kv.to_multiset_ensures();
                    sv.to_multiset_ensures();
                    assert(sv.to_multiset() == kv.to_multiset());
                    assert(sv.len() == sv.to_multiset().len());
                    assert(kv.len() == kv.to_multiset().len());
                    assert(sorted@.len() == codes.len());
                    assert(sv.contains(sv[0]));
                    assert(sv.to_multiset().count(sv[0]) > 0);
                    assert(kv.to_multiset().count(sv[0]) > 0);
                    assert(kv.contains(sv[0]));
                    let w = choose|w: int| 0 <= w < kv.len() && kv[w] == sv[0];
                    assert(codes[w]@ == sorted@[0]@);
                    assert(has_str(codes, sorted@[0]@));
                    assert forall|k: int|
                        0 <= k < codes.len() implies lex_le(sorted@[0]@, (#[trigger] codes[k])@)
                    by {
                        assert(kv[k] == codes[k]@);
                        assert(kv.contains(kv[k]));
                        assert(sv.to_multiset().count(kv[k]) > 0);
                        assert(sv.contains(kv[k]));
                        let m = choose|m: int| 0 <= m < sv.len() && sv[m] == kv[k];
                        if m == 0 {
                            lemma_lex_le_refl(sorted@[0]@);
                        } else {
                            assert(lex_le(sorted@[0]@, sorted@[m]@));
                        }
                    }
                }
                let first = sorted[0].clone();
                return first;
            },
            _ => {},
        }
        i += 1;
    }
    String::from_str("other")
}

/// The order on character sequences is reflexive.
proof fn lemma_lex_le_refl(a: Seq<char>)
    ensures
        lex_le(a, a),
    decreases a.len(),
{
    reveal(crate::text::lex_le);
    if a.len() > 0 {
        lemma_lex_le_refl(a.skip(1));
    }
}

} // verus!

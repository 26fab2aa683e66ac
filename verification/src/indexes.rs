//! Derivation of the concrete index names a request may search.
//!
//! With full visibility the single umbrella index is searched. Otherwise
//! each requested entity type contributes its indexes: addresses, streets
//! and administrative regions have one index each (zones live with the
//! admins), points of interest have one index per visible poi dataset (or
//! the shared one when none is named), and stops have one index per visible
//! transit dataset — so stops are searchable only with a dataset. An empty
//! type list asks for every type. Unknown type names contribute nothing.

use vstd::prelude::*;
use crate::request::views_of;
use crate::text::str_eq;

verus! {

pub open spec fn spec_poi_indexes(poi_datasets: Seq<String>) -> Seq<Seq<char>> {
    if poi_datasets.len() == 0 {
        seq!["munin_poi"@]
    } else {
        poi_datasets.map_values(|d: String| "munin_poi_"@ + d@)
    }
}

pub open spec fn spec_stop_indexes(pt_datasets: Seq<String>) -> Seq<Seq<char>> {
    pt_datasets.map_values(|d: String| "munin_stop_"@ + d@)
}

/// The indexes one requested type contributes.
pub open spec fn spec_type_indexes(
    t: Seq<char>,
    pt_datasets: Seq<String>,
    poi_datasets: Seq<String>,
) -> Seq<Seq<char>> {
    if t == "address"@ {
        seq!["munin_addr"@]
    } else if t == "admin"@ || t == "zone"@ {
        seq!["munin_admin"@]
    } else if t == "street"@ {
        seq!["munin_street"@]
    } else if t == "poi"@ {
        spec_poi_indexes(poi_datasets)
    } else if t == "stop"@ {
        spec_stop_indexes(pt_datasets)
    } else {
        Seq::<Seq<char>>::empty()
    }
}

pub open spec fn spec_indexes_of_types(
    types: Seq<String>,
    pt_datasets: Seq<String>,
    poi_datasets: Seq<String>,
) -> Seq<Seq<char>>
    decreases types.len(),
{
    if types.len() == 0 {
        Seq::<Seq<char>>::empty()
    } else {
        spec_indexes_of_types(types.drop_last(), pt_datasets, poi_datasets) + spec_type_indexes(
            types.last()@,
            pt_datasets,
            poi_datasets,
        )
    }
}

/// Every index name a request may search, in emission order.
pub open spec fn spec_indexes(
    all_data: bool,
    pt_datasets: Seq<String>,
    poi_datasets: Seq<String>,
    types: Seq<String>,
) -> Seq<Seq<char>> {
    if all_data {
        seq!["munin"@]
    } else if types.len() == 0 {
        seq!["munin_addr"@, "munin_admin"@, "munin_street"@] + spec_poi_indexes(poi_datasets)
            + spec_stop_indexes(pt_datasets)
    } else {
        spec_indexes_of_types(types, pt_datasets, poi_datasets)
    }
}

fn push_dataset_indexes(out: &mut Vec<String>, prefix: &str, datasets: &Vec<String>)
    ensures
        views_of(final(out)@) == views_of(old(out)@) + datasets@.map_values(
            |d: String| prefix@ + d@,
        ),
{
    let mut i: usize = 0;
    while i < datasets.len()
        invariant
            i <= datasets@.len(),
            out@.len() == old(out)@.len() + i,
            forall|j: int| 0 <= j < old(out)@.len() ==> out@[j] == old(out)@[j],
            forall|j: int|
                old(out)@.len() <= j < old(out)@.len() + i ==> (#[trigger] out@[j])@ == prefix@
                    + datasets@[j - old(out)@.len()]@,
        decreases datasets@.len() - i,
    {
        let name = String::from_str(prefix).concat(datasets[i].as_str());
        out.push(name);
        i += 1;
    }
    proof {
        assert(views_of(out@) =~= views_of(old(out)@) + datasets@.map_values(
            |d: String| prefix@ + d@,
        ));
    }
}

fn push_poi_indexes(out: &mut Vec<String>, poi_datasets: &Vec<String>)
    ensures
        views_of(final(out)@) == views_of(old(out)@) + spec_poi_indexes(poi_datasets@),
{
    if poi_datasets.len() == 0 {
        out.push(String::from_str("munin_poi"));
        proof {
            assert(views_of(out@) =~= views_of(old(out)@) + spec_poi_indexes(poi_datasets@));
        }
    } else {
        push_dataset_indexes(out, "munin_poi_", poi_datasets);
    }
}

fn push_type_indexes(out: &mut Vec<String>, t: &str, pt_datasets: &Vec<String>, poi_datasets: &Vec<
    String,
>)
    ensures
        views_of(final(out)@) == views_of(old(out)@) + spec_type_indexes(
            t@,
            pt_datasets@,
            poi_datasets@,
        ),
{
    proof {
        reveal_strlit("address");
        reveal_strlit("admin");
        reveal_strlit("zone");
        reveal_strlit("street");
        reveal_strlit("poi");
        reveal_strlit("stop");
    }
    if str_eq(t, "address") {
        out.push(String::from_str("munin_addr"));
        proof {
            assert(views_of(out@) =~= views_of(old(out)@) + seq!["munin_addr"@]);
        }
    } else if str_eq(t, "admin") || str_eq(t, "zone") {
        out.push(String::from_str("munin_admin"));
        proof {
            assert(views_of(out@) =~= views_of(old(out)@) + seq!["munin_admin"@]);
        }
    } else if str_eq(t, "street") {
        out.push(String::from_str("munin_street"));
        proof {
            assert(views_of(out@) =~= views_of(old(out)@) + seq!["munin_street"@]);
        }
    } else if str_eq(t, "poi") {
        push_poi_indexes(out, poi_datasets);
    } else if str_eq(t, "stop") {
        push_dataset_indexes(out, "munin_stop_", pt_datasets);
    } else {
        proof {
            assert(views_of(out@) =~= views_of(old(out)@) + Seq::<Seq<char>>::empty());
        }
    }
}

/// The concrete indexes of a request, per the rules above.
pub fn get_indexes(
    all_data: bool,
    pt_datasets: &Vec<String>,
    poi_datasets: &Vec<String>,
    types: &Vec<String>,
) -> (r: Vec<String>)
    ensures
        views_of(r@) == spec_indexes(all_data, pt_datasets@, poi_datasets@, types@),
{
    let mut out: Vec<String> = Vec::new();
    if all_data {
        out.push(String::from_str("munin"));
        proof {
            assert(views_of(out@) =~= seq!["munin"@]);
        }
        return out;
    }
    if types.len() == 0 {
        out.push(String::from_str("munin_addr"));
        out.push(String::from_str("munin_admin"));
        out.push(String::from_str("munin_street"));
        proof {
            assert(views_of(out@) =~= seq!["munin_addr"@, "munin_admin"@, "munin_street"@]);
        }
        push_poi_indexes(&mut out, poi_datasets);
        push_dataset_indexes(&mut out, "munin_stop_", pt_datasets);
        proof {
            assert(views_of(out@) =~= spec_indexes(
                all_data,
                pt_datasets@,
                poi_datasets@,
                types@,
            ));
        }
        return out;
    }
    let mut i: usize = 0;
    while i < types.len()
        invariant
            i <= types@.len(),
            types@.len() > 0,
            !all_data,
            views_of(out@) == spec_indexes_of_types(
                types@.take(i as int),
                pt_datasets@,
                poi_datasets@,
            ),
        decreases types@.len() - i,
    {
        push_type_indexes(&mut out, types[i].as_str(), pt_datasets, poi_datasets);
        proof {
            assert(types@.take(i as int + 1).drop_last() =~= types@.take(i as int));
            assert(types@.take(i as int + 1).last() == types@[i as int]);
        }
        i += 1;
    }
    proof {
        assert(types@.take(types@.len() as int) =~= types@);
    }
    out
}

} // verus!

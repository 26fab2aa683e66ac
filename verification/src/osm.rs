//! Plain-value model of the OSM objects the ingestion passes read: nodes,
//! ways and relations with their tags, resolved out of the binary dump by
//! the reader that feeds the library.

use vstd::prelude::*;
use crate::places::Coord;
use crate::text::str_eq;

verus! {

/// One `key=value` tag.
#[derive(Debug)]
pub struct Tag {
    pub key: String,
    pub value: String,
}

/// The tags of one object; lookups return the first entry with the key.
#[derive(Debug)]
pub struct Tags {
    pub entries: Vec<Tag>,
}

/// The value of the first entry with key `key`, if any.
pub open spec fn spec_tags_get(entries: Seq<Tag>, key: Seq<char>) -> Option<Seq<char>>
    decreases entries.len(),
{
    if entries.len() == 0 {
        None
    } else if entries[0].key@ == key {
        Some(entries[0].value@)
    } else {
        spec_tags_get(entries.skip(1), key)
    }
}

impl Tags {
    pub open spec fn spec_get(&self, key: Seq<char>) -> Option<Seq<char>> {
        spec_tags_get(self.entries@, key)
    }

    pub fn get(&self, key: &str) -> (r: Option<&String>)
        ensures
            match r {
                Some(v) => self.spec_get(key@) == Some(v@),
                None => self.spec_get(key@) is None,
            },
    {
        let mut i: usize = 0;
        proof {
            assert(self.entries@.skip(0) =~= self.entries@);
        }
        while i < self.entries.len()
            invariant
                i <= self.entries@.len(),
                spec_tags_get(self.entries@, key@) == spec_tags_get(
                    self.entries@.skip(i as int),
                    key@,
                ),
            decreases self.entries@.len() - i,
        {
            proof {
                assert(self.entries@.skip(i as int)[0] == self.entries@[i as int]);
                assert(self.entries@.skip(i as int).skip(1) =~= self.entries@.skip(i as int + 1));
            }
            if str_eq(self.entries[i].key.as_str(), key) {
                return Some(&self.entries[i].value);
            }
            i += 1;
        }
        None
    }

    /// Whether the key is present with a non-empty value.
    pub fn has_nonempty(&self, key: &str) -> (r: bool)
        ensures
            r == match self.spec_get(key@) {
                Some(v) => v.len() > 0,
                None => false,
            },
    {
        match self.get(key) {
            Some(v) => v.as_str().unicode_len() > 0,
            None => false,
        }
    }
}

/// Identifier of an OSM object, tagged by its kind.
#[derive(Clone, Copy, Debug, PartialEq, Eq, Structural)]
pub enum OsmId {
    Node(i64),
    Way(i64),
    Relation(i64),
}

/// The kind of an OSM object.
#[derive(Clone, Copy, Debug, PartialEq, Eq, Structural)]
pub enum Kind {
    Node,
    Way,
    Relation,
}

impl OsmId {
    pub fn kind(self) -> (r: Kind)
        ensures
            r == spec_id_kind(self),
    {
        match self {
            OsmId::Node(_) => Kind::Node,
            OsmId::Way(_) => Kind::Way,
            OsmId::Relation(_) => Kind::Relation,
        }
    }
}

pub open spec fn spec_id_kind(id: OsmId) -> Kind {
    match id {
        OsmId::Node(_) => Kind::Node,
        OsmId::Way(_) => Kind::Way,
        OsmId::Relation(_) => Kind::Relation,
    }
}

#[derive(Debug)]
pub struct OsmNode {
    pub id: i64,
    pub coord: Coord,
    pub tags: Tags,
}

#[derive(Debug)]
pub struct OsmWay {
    pub id: i64,
    /// The ids of the way's nodes, in order.
    pub nodes: Vec<i64>,
    pub tags: Tags,
}

/// One member reference of a relation.
#[derive(Debug)]
pub struct OsmRef {
    pub member: OsmId,
    pub role: String,
}

#[derive(Debug)]
pub struct OsmRelation {
    pub id: i64,
    pub refs: Vec<OsmRef>,
    pub tags: Tags,
}

/// An OSM object of any kind.
#[derive(Debug)]
pub enum OsmObj {
    Node(OsmNode),
    Way(OsmWay),
    Relation(OsmRelation),
}

/// The objects resolved from a dump, each kind in reading order.
#[derive(Debug)]
pub struct OsmCollection {
    pub nodes: Vec<OsmNode>,
    pub ways: Vec<OsmWay>,
    pub relations: Vec<OsmRelation>,
}

/// The first node with id `id`, if any.
pub open spec fn spec_find_node(nodes: Seq<OsmNode>, id: i64) -> Option<OsmNode>
    decreases nodes.len(),
{
    if nodes.len() == 0 {
        None
    } else if nodes[0].id == id {
        Some(nodes[0])
    } else {
        spec_find_node(nodes.skip(1), id)
    }
}

/// The first way with id `id`, if any.
pub open spec fn spec_find_way(ways: Seq<OsmWay>, id: i64) -> Option<OsmWay>
    decreases ways.len(),
{
    if ways.len() == 0 {
        None
    } else if ways[0].id == id {
        Some(ways[0])
    } else {
        spec_find_way(ways.skip(1), id)
    }
}

impl OsmCollection {
    pub fn node(&self, id: i64) -> (r: Option<&OsmNode>)
        ensures
            match r {
                Some(n) => spec_find_node(self.nodes@, id) == Some(*n),
                None => spec_find_node(self.nodes@, id) is None,
            },
    {
        let mut i: usize = 0;
        proof {
            assert(self.nodes@.skip(0) =~= self.nodes@);
        }
        while i < self.nodes.len()
            invariant
                i <= self.nodes@.len(),
                spec_find_node(self.nodes@, id) == spec_find_node(
                    self.nodes@.skip(i as int),
                    id,
                ),
            decreases self.nodes@.len() - i,
        {
            proof {
                assert(self.nodes@.skip(i as int)[0] == self.nodes@[i as int]);
                assert(self.nodes@.skip(i as int).skip(1) =~= self.nodes@.skip(i as int + 1));
            }
            if self.nodes[i].id == id {
                return Some(&self.nodes[i]);
            }
            i += 1;
        }
        None
    }

    pub fn way(&self, id: i64) -> (r: Option<&OsmWay>)
        ensures
            match r {
                Some(w) => spec_find_way(self.ways@, id) == Some(*w),
                None => spec_find_way(self.ways@, id) is None,
            },
    {
        let mut i: usize = 0;
        proof {
            assert(self.ways@.skip(0) =~= self.ways@);
        }
        while i < self.ways.len()
            invariant
                i <= self.ways@.len(),
                spec_find_way(self.ways@, id) == spec_find_way(self.ways@.skip(i as int), id),
            decreases self.ways@.len() - i,
        {
            proof {
                assert(self.ways@.skip(i as int)[0] == self.ways@[i as int]);
                assert(self.ways@.skip(i as int).skip(1) =~= self.ways@.skip(i as int + 1));
            }
            if self.ways[i].id == id {
                return Some(&self.ways[i]);
            }
            i += 1;
        }
        None
    }
}

} // verus!

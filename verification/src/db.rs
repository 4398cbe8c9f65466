//! In-memory model of one library's record store.
//!
//! The real store is an external collaborator reached over a narrow
//! interface; this module gives the library a verified reference model of
//! the tables the lifecycle and indexing logic touch: nodes, locations,
//! indexer rules, file paths, objects and key records. Every id is allocated
//! from one counter, so ids are unique across a table, and `wf` is preserved
//! by every operation.

use vstd::prelude::*;
use crate::keys::KeyRecord;
use crate::keys::KeyRecordV;
use crate::platform::Platform;
use crate::text::spec_is_direct_child;
use crate::text::is_direct_child;
use crate::vecs::spec_find;
use crate::vecs::lemma_spec_find;
use crate::vecs::lemma_spec_find_is_first;
use crate::vecs::lemma_spec_find_none;
use crate::vecs::lemma_filter_push;
use crate::vecs::lemma_filter_preserves;
use crate::vecs::lemma_filter_unique_by;
use crate::vecs::vec_update;
use crate::vecs::vec_contains_i64;

verus! {

/// One node known to this library; `id` is the library-local id handed out
/// for location ownership, `pub_id` the node's global identity.
#[derive(Debug)]
pub struct NodeRecord {
    pub id: i64,
    pub pub_id: u128,
    pub name: String,
    pub platform: Platform,
}

/// Mathematical view of a node record.
pub ghost struct NodeV {
    pub id: i64,
    pub pub_id: u128,
    pub name: Seq<char>,
    pub platform: Platform,
}

impl View for NodeRecord {
    type V = NodeV;

    open spec fn view(&self) -> NodeV {
        NodeV { id: self.id, pub_id: self.pub_id, name: self.name@, platform: self.platform }
    }
}

/// A tracked filesystem root, owned by one node, with the ids of the indexer
/// rules attached to it.
#[derive(Debug)]
pub struct LocationRecord {
    pub id: i64,
    pub node_id: i64,
    pub path: String,
    pub rule_ids: Vec<i64>,
}

/// Mathematical view of a location record.
pub ghost struct LocationV {
    pub id: i64,
    pub node_id: i64,
    pub path: Seq<char>,
    pub rule_ids: Seq<i64>,
}

impl View for LocationRecord {
    type V = LocationV;

    open spec fn view(&self) -> LocationV {
        LocationV { id: self.id, node_id: self.node_id, path: self.path@, rule_ids: self.rule_ids@ }
    }
}

impl LocationRecord {
    /// An owned copy with the same contents.
    pub fn duplicate(&self) -> (r: LocationRecord)
        ensures
            r@ == self@,
    {
        let mut rule_ids: Vec<i64> = Vec::new();
        let n: usize = self.rule_ids.len();
        let mut i: usize = 0;
        while i < n
            invariant
                i <= n,
                n == self.rule_ids@.len(),
                rule_ids@ == self.rule_ids@.take(i as int),
            decreases n - i,
        {
            rule_ids.push(self.rule_ids[i]);
            proof {
                assert(rule_ids@ =~= self.rule_ids@.take(i as int + 1));
            }
            i = i + 1;
        }
        proof {
            assert(self.rule_ids@.take(n as int) =~= self.rule_ids@);
        }
        LocationRecord { id: self.id, node_id: self.node_id, path: self.path.clone(), rule_ids }
    }
}

/// A persisted indexer rule: a kind tag and a pattern, compiled before a
/// walk.
#[derive(Debug)]
pub struct IndexerRuleRecord {
    pub id: i64,
    pub kind: u8,
    pub pattern: String,
}

/// Mathematical view of a persisted indexer rule.
pub ghost struct RuleV {
    pub id: i64,
    pub kind: u8,
    pub pattern: Seq<char>,
}

impl View for IndexerRuleRecord {
    type V = RuleV;

    open spec fn view(&self) -> RuleV {
        RuleV { id: self.id, kind: self.kind, pattern: self.pattern@ }
    }
}

impl IndexerRuleRecord {
    /// An owned copy with the same contents.
    pub fn duplicate(&self) -> (r: IndexerRuleRecord)
        ensures
            r@ == self@,
    {
        IndexerRuleRecord { id: self.id, kind: self.kind, pattern: self.pattern.clone() }
    }
}

/// One recorded path of a location, with the metadata the shallow scan
/// compares, and the content object it references, if any.
#[derive(Debug)]
pub struct FilePathRecord {
    pub id: i64,
    pub location_id: i64,
    pub path: String,
    pub is_dir: bool,
    pub mtime: u64,
    pub object_id: Option<i64>,
}

/// Mathematical view of a file-path record.
pub ghost struct FilePathV {
    pub id: i64,
    pub location_id: i64,
    pub path: Seq<char>,
    pub is_dir: bool,
    pub mtime: u64,
    pub object_id: Option<i64>,
}

impl View for FilePathRecord {
    type V = FilePathV;

    open spec fn view(&self) -> FilePathV {
        FilePathV {
            id: self.id,
            location_id: self.location_id,
            path: self.path@,
            is_dir: self.is_dir,
            mtime: self.mtime,
            object_id: self.object_id,
        }
    }
}

impl FilePathRecord {
    /// An owned copy with the same contents.
    pub fn duplicate(&self) -> (r: FilePathRecord)
        ensures
            r@ == self@,
    {
        FilePathRecord {
            id: self.id,
            location_id: self.location_id,
            path: self.path.clone(),
            is_dir: self.is_dir,
            mtime: self.mtime,
            object_id: self.object_id,
        }
    }
}

/// Predicate: a node with the given global id.
pub open spec fn node_pub_is(pub_id: u128) -> spec_fn(NodeV) -> bool {
    |n: NodeV| n.pub_id == pub_id
}

/// Predicate: a location owned by the given node.
pub open spec fn location_node_is(node_id: i64) -> spec_fn(LocationV) -> bool {
    |l: LocationV| l.node_id == node_id
}

/// Projection: a location's id.
pub open spec fn location_id_of() -> spec_fn(LocationV) -> i64 {
    |l: LocationV| l.id
}

/// Predicate: an indexer rule with the given id.
pub open spec fn rule_id_is(id: i64) -> spec_fn(RuleV) -> bool {
    |r: RuleV| r.id == id
}

/// Predicate: the file-path record of `path` within a location.
pub open spec fn file_path_at(location_id: i64, path: Seq<char>) -> spec_fn(FilePathV) -> bool {
    |p: FilePathV| p.location_id == location_id && p.path == path
}

/// Predicate: a file-path record whose id is not in `ids`.
pub open spec fn file_path_id_not_in(ids: Seq<i64>) -> spec_fn(FilePathV) -> bool {
    |p: FilePathV| !ids.contains(p.id)
}

/// Predicate: a file-path record of `location_id` one level below `dir`.
pub open spec fn file_path_child_of(location_id: i64, dir: Seq<char>) -> spec_fn(FilePathV) -> bool {
    |p: FilePathV| p.location_id == location_id && spec_is_direct_child(dir, p.path)
}

/// Predicate: an object referenced by some file-path record in `paths`.
pub open spec fn object_referenced_in(paths: Seq<FilePathV>) -> spec_fn(i64) -> bool {
    |o: i64| exists|i: int| 0 <= i < paths.len() && (#[trigger] paths[i]).object_id == Some(o)
}

/// The rule records of `rules` picked out by `ids`, in `ids` order; an id
/// with no record is skipped.
pub open spec fn spec_rules_for(rules: Seq<RuleV>, ids: Seq<i64>) -> Seq<RuleV>
    decreases ids.len(),
{
    if ids.len() == 0 {
        Seq::empty()
    } else {
        let front = spec_rules_for(rules, ids.drop_last());
        match spec_find(rules, rule_id_is(ids.last())) {
            Some(j) => front.push(rules[j]),
            None => front,
        }
    }
}

/// Mathematical view of the whole store.
#[verifier::ext_equal]
pub ghost struct DbV {
    pub nodes: Seq<NodeV>,
    pub locations: Seq<LocationV>,
    pub indexer_rules: Seq<RuleV>,
    pub file_paths: Seq<FilePathV>,
    pub objects: Seq<i64>,
    pub keys: Seq<KeyRecordV>,
    pub next_id: i64,
}

/// The in-memory record store of one library.
#[derive(Debug)]
pub struct LibraryDb {
    pub nodes: Vec<NodeRecord>,
    pub locations: Vec<LocationRecord>,
    pub indexer_rules: Vec<IndexerRuleRecord>,
    pub file_paths: Vec<FilePathRecord>,
    pub objects: Vec<i64>,
    pub keys: Vec<KeyRecord>,
    pub next_id: i64,
}

impl View for LibraryDb {
    type V = DbV;

    open spec fn view(&self) -> DbV {
        DbV {
            nodes: self.nodes@.map_values(|n: NodeRecord| n@),
            locations: self.locations@.map_values(|l: LocationRecord| l@),
            indexer_rules: self.indexer_rules@.map_values(|r: IndexerRuleRecord| r@),
            file_paths: self.file_paths@.map_values(|p: FilePathRecord| p@),
            objects: self.objects@,
            keys: self.keys@.map_values(|k: KeyRecord| k@),
            next_id: self.next_id,
        }
    }
}

impl LibraryDb {
    /// Well-formedness: every id is unique within its table, node global ids
    /// are unique, and every id was allocated below `next_id`.
    pub open spec fn wf(self) -> bool {
        let v = self@;
        &&& forall|i: int, j: int|
            0 <= i < j < v.nodes.len() ==> (#[trigger] v.nodes[i]).id != (
            #[trigger] v.nodes[j]).id && v.nodes[i].pub_id != v.nodes[j].pub_id
        &&& forall|i: int| 0 <= i < v.nodes.len() ==> 0 <= (#[trigger] v.nodes[i]).id < v.next_id
        &&& forall|i: int, j: int|
            0 <= i < j < v.locations.len() ==> (#[trigger] v.locations[i]).id != (
            #[trigger] v.locations[j]).id
        &&& forall|i: int|
            0 <= i < v.locations.len() ==> 0 <= (#[trigger] v.locations[i]).id < v.next_id
        &&& forall|i: int, j: int|
            0 <= i < j < v.indexer_rules.len() ==> (#[trigger] v.indexer_rules[i]).id != (
            #[trigger] v.indexer_rules[j]).id
        &&& forall|i: int|
            0 <= i < v.indexer_rules.len() ==> 0 <= (#[trigger] v.indexer_rules[i]).id < v.next_id
        &&& forall|i: int, j: int|
            0 <= i < j < v.file_paths.len() ==> (#[trigger] v.file_paths[i]).id != (
            #[trigger] v.file_paths[j]).id
        &&& forall|i: int|
            0 <= i < v.file_paths.len() ==> 0 <= (#[trigger] v.file_paths[i]).id < v.next_id
        &&& forall|i: int, j: int|
            0 <= i < j < v.objects.len() ==> (#[trigger] v.objects[i]) != (#[trigger] v.objects[j])
        &&& forall|i: int| 0 <= i < v.objects.len() ==> 0 <= (#[trigger] v.objects[i]) < v.next_id
        &&& v.next_id >= 1
    }

    /// A fresh, empty store.
    pub fn new() -> (db: LibraryDb)
        ensures
            db.wf(),
            db@.nodes.len() == 0,
            db@.locations.len() == 0,
            db@.indexer_rules.len() == 0,
            db@.file_paths.len() == 0,
            db@.objects.len() == 0,
            db@.keys.len() == 0,
            db@.next_id == 1,
    {
        LibraryDb {
            nodes: Vec::new(),
            locations: Vec::new(),
            indexer_rules: Vec::new(),
            file_paths: Vec::new(),
            objects: Vec::new(),
            keys: Vec::new(),
            next_id: 1,
        }
    }

    /// Index of the node with the given global id, if any.
    fn find_node_index(&self, pub_id: u128) -> (r: Option<usize>)
        ensures
            match r {
                Some(i) => spec_find(self@.nodes, node_pub_is(pub_id)) == Some(i as int),
                None => spec_find(self@.nodes, node_pub_is(pub_id)) is None,
            },
    {
        let n: usize = self.nodes.len();
        let mut i: usize = 0;
        while i < n
            invariant
                i <= n,
                n == self@.nodes.len(),
                forall|j: int| 0 <= j < i ==> !node_pub_is(pub_id)(#[trigger] self@.nodes[j]),
            decreases n - i,
        {
            if self.nodes[i].pub_id == pub_id {
                proof {
                    assert(node_pub_is(pub_id)(self@.nodes[i as int]));
                    lemma_spec_find_is_first(self@.nodes, node_pub_is(pub_id), i as int);
                }
                return Some(i);
            }
            proof {
                assert(!node_pub_is(pub_id)(self@.nodes[i as int]));
            }
            i = i + 1;
        }
        proof {
            lemma_spec_find_none(self@.nodes, node_pub_is(pub_id));
        }
        None
    }

    /// Index of the file-path record of `path` within `location_id`, if any.
    fn find_file_path_index(&self, location_id: i64, path: &str) -> (r: Option<usize>)
        ensures
            match r {
                Some(i) => spec_find(self@.file_paths, file_path_at(location_id, path@)) == Some(
                    i as int,
                ),
                None => spec_find(self@.file_paths, file_path_at(location_id, path@)) is None,
            },
    {
        let n: usize = self.file_paths.len();
        let mut i: usize = 0;
        while i < n
            invariant
                i <= n,
                n == self@.file_paths.len(),
                forall|j: int|
                    0 <= j < i ==> !file_path_at(location_id, path@)(
                        #[trigger] self@.file_paths[j],
                    ),
            decreases n - i,
        {
            if self.file_paths[i].location_id == location_id && crate::text::str_eq_str(
                self.file_paths[i].path.as_str(),
                path,
            ) {
                proof {
                    assert(file_path_at(location_id, path@)(self@.file_paths[i as int]));
                    lemma_spec_find_is_first(
                        self@.file_paths,
                        file_path_at(location_id, path@),
                        i as int,
                    );
                }
                return Some(i);
            }
            proof {
                assert(!file_path_at(location_id, path@)(self@.file_paths[i as int]));
            }
            i = i + 1;
        }
        proof {
            lemma_spec_find_none(self@.file_paths, file_path_at(location_id, path@));
        }
        None
    }

    /// Upserts the node with the given global id: an existing record keeps
    /// its local id and platform and has its name refreshed; otherwise a new
    /// record is created with the given name and platform. Returns the
    /// library-local node id — the same id every time the same node reopens
    /// this library.
    pub fn upsert_node(&mut self, pub_id: u128, name: &str, platform: Platform) -> (local_id: i64)
        requires
            old(self).wf(),
            old(self)@.next_id < i64::MAX,
        ensures
            final(self).wf(),
            final(self)@.locations == old(self)@.locations,
            final(self)@.indexer_rules == old(self)@.indexer_rules,
            final(self)@.file_paths == old(self)@.file_paths,
            final(self)@.objects == old(self)@.objects,
            final(self)@.keys == old(self)@.keys,
            match spec_find(old(self)@.nodes, node_pub_is(pub_id)) {
                Some(i) => {
                    &&& final(self)@.nodes == old(self)@.nodes.update(
                        i,
                        (NodeV {
                            id: old(self)@.nodes[i].id,
                            pub_id: pub_id,
                            name: name@,
                            platform: old(self)@.nodes[i].platform,
                        }),
                    )
                    &&& local_id == old(self)@.nodes[i].id
                    &&& final(self)@.next_id == old(self)@.next_id
                },
                None => {
                    &&& final(self)@.nodes == old(self)@.nodes.push(
                        (NodeV { id: old(self)@.next_id, pub_id: pub_id, name: name@, platform }),
                    )
                    &&& local_id == old(self)@.next_id
                    &&& final(self)@.next_id == old(self)@.next_id + 1
                },
            },
    {
        proof {
            lemma_spec_find(old(self)@.nodes, node_pub_is(pub_id));
        }
        match self.find_node_index(pub_id) {
            Some(i) => {
                let local_id = self.nodes[i].id;
                let updated = NodeRecord {
                    id: local_id,
                    pub_id: pub_id,
                    name: name.to_owned(),
                    platform: self.nodes[i].platform,
                };
                vec_update(&mut self.nodes, i, updated);
                proof {
                    assert(self@.nodes =~= old(self)@.nodes.update(
                        i as int,
                        (NodeV {
                            id: old(self)@.nodes[i as int].id,
                            pub_id: pub_id,
                            name: name@,
                            platform: old(self)@.nodes[i as int].platform,
                        }),
                    ));
                    assert(self@.locations == old(self)@.locations);
                    assert(self@.indexer_rules == old(self)@.indexer_rules);
                    assert(self@.file_paths == old(self)@.file_paths);
                    assert(self@.objects == old(self)@.objects);
                    assert(self@.keys == old(self)@.keys);
                }
                local_id
            },
            None => {
                let local_id = self.next_id;
                self.nodes.push(
                    NodeRecord { id: local_id, pub_id: pub_id, name: name.to_owned(), platform },
                );
                self.next_id = self.next_id + 1;
                proof {
                    assert(self@.nodes =~= old(self)@.nodes.push(
                        (NodeV { id: old(self)@.next_id, pub_id: pub_id, name: name@, platform }),
                    ));
                    assert(self@.locations == old(self)@.locations);
                    assert(self@.indexer_rules == old(self)@.indexer_rules);
                    assert(self@.file_paths == old(self)@.file_paths);
                    assert(self@.objects == old(self)@.objects);
                    assert(self@.keys == old(self)@.keys);
                }
                local_id
            },
        }
    }

    /// Creates a location owned by `node_id` rooted at `path`, with the
    /// given attached rule ids, and returns its id.
    pub fn insert_location(&mut self, node_id: i64, path: &str, rule_ids: Vec<i64>) -> (id: i64)
        requires
            old(self).wf(),
            old(self)@.next_id < i64::MAX,
        ensures
            final(self).wf(),
            final(self)@.nodes == old(self)@.nodes,
            final(self)@.indexer_rules == old(self)@.indexer_rules,
            final(self)@.file_paths == old(self)@.file_paths,
            final(self)@.objects == old(self)@.objects,
            final(self)@.keys == old(self)@.keys,
            final(self)@.locations == old(self)@.locations.push(
                (LocationV { id: old(self)@.next_id, node_id, path: path@, rule_ids: rule_ids@ }),
            ),
            id == old(self)@.next_id,
            final(self)@.next_id == old(self)@.next_id + 1,
    {
        let id = self.next_id;
        let ghost rids = rule_ids@;
        self.locations.push(LocationRecord { id, node_id, path: path.to_owned(), rule_ids });
        self.next_id = self.next_id + 1;
        proof {
            assert(self@.locations =~= old(self)@.locations.push(
                (LocationV { id: old(self)@.next_id, node_id, path: path@, rule_ids: rids }),
            ));
            assert(self@.nodes == old(self)@.nodes);
            assert(self@.indexer_rules == old(self)@.indexer_rules);
            assert(self@.file_paths == old(self)@.file_paths);
            assert(self@.objects == old(self)@.objects);
            assert(self@.keys == old(self)@.keys);
        }
        id
    }

    /// Persists an indexer rule and returns its id.
    pub fn insert_indexer_rule(&mut self, kind: u8, pattern: &str) -> (id: i64)
        requires
            old(self).wf(),
            old(self)@.next_id < i64::MAX,
        ensures
            final(self).wf(),
            final(self)@.nodes == old(self)@.nodes,
            final(self)@.locations == old(self)@.locations,
            final(self)@.file_paths == old(self)@.file_paths,
            final(self)@.objects == old(self)@.objects,
            final(self)@.keys == old(self)@.keys,
            final(self)@.indexer_rules == old(self)@.indexer_rules.push(
                (RuleV { id: old(self)@.next_id, kind, pattern: pattern@ }),
            ),
            id == old(self)@.next_id,
            final(self)@.next_id == old(self)@.next_id + 1,
    {
        let id = self.next_id;
        self.indexer_rules.push(IndexerRuleRecord { id, kind, pattern: pattern.to_owned() });
        self.next_id = self.next_id + 1;
        proof {
            assert(self@.indexer_rules =~= old(self)@.indexer_rules.push(
                (RuleV { id: old(self)@.next_id, kind, pattern: pattern@ }),
            ));
            assert(self@.nodes == old(self)@.nodes);
            assert(self@.locations == old(self)@.locations);
            assert(self@.file_paths == old(self)@.file_paths);
            assert(self@.objects == old(self)@.objects);
            assert(self@.keys == old(self)@.keys);
        }
        id
    }

    /// Appends a persisted key record.
    pub fn push_key(&mut self, key: KeyRecord)
        ensures
            final(self)@ == (DbV { keys: old(self)@.keys.push(key@), ..old(self)@ }),
            (old(self).wf() ==> final(self).wf()),
    {
        let ghost kv = key@;
        self.keys.push(key);
        proof {
            assert(self@.keys =~= old(self)@.keys.push(kv));
            assert(self@ =~= DbV { keys: old(self)@.keys.push(kv), ..old(self)@ });
        }
    }

    /// The ids of the locations owned by `node_id`, in table order.
    pub fn location_ids_for_node(&self, node_id: i64) -> (r: Vec<i64>)
        ensures
            r@ == self@.locations.filter(location_node_is(node_id)).map_values(location_id_of()),
    {
        let mut r: Vec<i64> = Vec::new();
        let n: usize = self.locations.len();
        let mut i: usize = 0;
        while i < n
            invariant
                i <= n,
                n == self@.locations.len(),
                r@ == self@.locations.take(i as int).filter(location_node_is(node_id)).map_values(
                    location_id_of(),
                ),
            decreases n - i,
        {
            if self.locations[i].node_id == node_id {
                r.push(self.locations[i].id);
            }
            proof {
                lemma_filter_push(
                    self@.locations.take(i as int),
                    self@.locations[i as int],
                    location_node_is(node_id),
                );
                assert(self@.locations.take(i as int + 1) =~= self@.locations.take(i as int).push(
                    self@.locations[i as int],
                ));
                assert(r@ =~= self@.locations.take(i as int + 1).filter(
                    location_node_is(node_id),
                ).map_values(location_id_of()));
            }
            i = i + 1;
        }
        proof {
            assert(self@.locations.take(n as int) =~= self@.locations);
        }
        r
    }

    /// The ids of every location in the store, in table order.
    pub fn all_location_ids(&self) -> (r: Vec<i64>)
        ensures
            r@ == self@.locations.map_values(location_id_of()),
    {
        let mut r: Vec<i64> = Vec::new();
        let n: usize = self.locations.len();
        let mut i: usize = 0;
        while i < n
            invariant
                i <= n,
                n == self@.locations.len(),
                r@ == self@.locations.take(i as int).map_values(location_id_of()),
            decreases n - i,
        {
            r.push(self.locations[i].id);
            proof {
                assert(self@.locations.take(i as int + 1) =~= self@.locations.take(i as int).push(
                    self@.locations[i as int],
                ));
                assert(r@ =~= self@.locations.take(i as int + 1).map_values(location_id_of()));
            }
            i = i + 1;
        }
        proof {
            assert(self@.locations.take(n as int) =~= self@.locations);
        }
        r
    }

    /// The location with the given id, as an owned copy.
    pub fn get_location(&self, location_id: i64) -> (r: Option<LocationRecord>)
        ensures
            match r {
                Some(l) => {
                    &&& spec_find(self@.locations, |l: LocationV| l.id == location_id) is Some
                    &&& l@ == self@.locations[spec_find(
                        self@.locations,
                        |l: LocationV| l.id == location_id,
                    )->Some_0]
                },
                None => spec_find(self@.locations, |l: LocationV| l.id == location_id) is None,
            },
    {
        let n: usize = self.locations.len();
        let mut i: usize = 0;
        while i < n
            invariant
                i <= n,
                n == self@.locations.len(),
                forall|j: int| 0 <= j < i ==> (#[trigger] self@.locations[j]).id != location_id,
            decreases n - i,
        {
            if self.locations[i].id == location_id {
                proof {
                    lemma_spec_find_is_first(
                        self@.locations,
                        |l: LocationV| l.id == location_id,
                        i as int,
                    );
                }
                return Some(self.locations[i].duplicate());
            }
            i = i + 1;
        }
        proof {
            lemma_spec_find_none(self@.locations, |l: LocationV| l.id == location_id);
        }
        None
    }

    /// Index of the indexer rule with the given id, if any.
    fn find_rule_index(&self, id: i64) -> (r: Option<usize>)
        ensures
            match r {
                Some(i) => spec_find(self@.indexer_rules, rule_id_is(id)) == Some(i as int),
                None => spec_find(self@.indexer_rules, rule_id_is(id)) is None,
            },
    {
        let n: usize = self.indexer_rules.len();
        let mut i: usize = 0;
        while i < n
            invariant
                i <= n,
                n == self@.indexer_rules.len(),
                forall|j: int| 0 <= j < i ==> !rule_id_is(id)(#[trigger] self@.indexer_rules[j]),
            decreases n - i,
        {
            if self.indexer_rules[i].id == id {
                proof {
                    assert(rule_id_is(id)(self@.indexer_rules[i as int]));
                    lemma_spec_find_is_first(self@.indexer_rules, rule_id_is(id), i as int);
                }
                return Some(i);
            }
            proof {
                assert(!rule_id_is(id)(self@.indexer_rules[i as int]));
            }
            i = i + 1;
        }
        proof {
            lemma_spec_find_none(self@.indexer_rules, rule_id_is(id));
        }
        None
    }

    /// Whether some file-path record references the object.
    fn object_is_referenced(&self, o: i64) -> (r: bool)
        ensures
            r == object_referenced_in(self@.file_paths)(o),
    {
        let m: usize = self.file_paths.len();
        let mut k: usize = 0;
        while k < m
            invariant
                k <= m,
                m == self@.file_paths.len(),
                forall|j: int| 0 <= j < k ==> (#[trigger] self@.file_paths[j]).object_id != Some(o),
            decreases m - k,
        {
            let linked = match self.file_paths[k].object_id {
                Some(x) => x == o,
                None => false,
            };
            if linked {
                proof {
                    assert(self@.file_paths[k as int].object_id == Some(o));
                    assert(object_referenced_in(self@.file_paths)(o));
                }
                return true;
            }
            k = k + 1;
        }
        proof {
            assert(!object_referenced_in(self@.file_paths)(o));
        }
        false
    }

    /// The rule records attached to a location, resolved from its rule ids
    /// in order; ids with no record are skipped.
    pub fn rules_for_location(&self, rule_ids: &Vec<i64>) -> (r: Vec<IndexerRuleRecord>)
        ensures
            r@.map_values(|x: IndexerRuleRecord| x@) == spec_rules_for(
                self@.indexer_rules,
                rule_ids@,
            ),
    {
        let mut r: Vec<IndexerRuleRecord> = Vec::new();
        let n: usize = rule_ids.len();
        let mut i: usize = 0;
        while i < n
            invariant
                i <= n,
                n == rule_ids@.len(),
                r@.map_values(|x: IndexerRuleRecord| x@) == spec_rules_for(
                    self@.indexer_rules,
                    rule_ids@.take(i as int),
                ),
            decreases n - i,
        {
            let id = rule_ids[i];
            proof {
                assert(rule_ids@.take(i as int + 1).drop_last() =~= rule_ids@.take(i as int));
                assert(rule_ids@.take(i as int + 1).last() == rule_ids@[i as int]);
            }
            match self.find_rule_index(id) {
                Some(k) => {
                    proof {
                        lemma_spec_find(self@.indexer_rules, rule_id_is(id));
                    }
                    r.push(self.indexer_rules[k].duplicate());
                    proof {
                        assert(r@.map_values(|x: IndexerRuleRecord| x@) =~= spec_rules_for(
                            self@.indexer_rules,
                            rule_ids@.take(i as int + 1),
                        ));
                    }
                },
                None => {
                    proof {
                        assert(r@.map_values(|x: IndexerRuleRecord| x@) =~= spec_rules_for(
                            self@.indexer_rules,
                            rule_ids@.take(i as int + 1),
                        ));
                    }
                },
            }
            i = i + 1;
        }
        proof {
            assert(rule_ids@.take(n as int) =~= rule_ids@);
        }
        r
    }

    /// Whether a path record for exactly `path` exists within a location.
    pub fn file_path_exists(&self, location_id: i64, path: &str) -> (r: bool)
        ensures
            r == (spec_find(self@.file_paths, file_path_at(location_id, path@)) is Some),
    {
        match self.find_file_path_index(location_id, path) {
            Some(_) => true,
            None => false,
        }
    }

    /// The recorded paths of `location_id` exactly one level below `dir`, as
    /// owned copies in table order.
    pub fn recorded_children(&self, location_id: i64, dir: &str) -> (r: Vec<FilePathRecord>)
        ensures
            r@.map_values(|p: FilePathRecord| p@) == self@.file_paths.filter(
                file_path_child_of(location_id, dir@),
            ),
    {
        let mut r: Vec<FilePathRecord> = Vec::new();
        let n: usize = self.file_paths.len();
        let mut i: usize = 0;
        while i < n
            invariant
                i <= n,
                n == self@.file_paths.len(),
                r@.map_values(|p: FilePathRecord| p@) == self@.file_paths.take(i as int).filter(
                    file_path_child_of(location_id, dir@),
                ),
            decreases n - i,
        {
            if self.file_paths[i].location_id == location_id && is_direct_child(
                dir,
                self.file_paths[i].path.as_str(),
            ) {
                proof {
                    assert(file_path_child_of(location_id, dir@)(self@.file_paths[i as int]));
                }
                r.push(self.file_paths[i].duplicate());
            } else {
                proof {
                    assert(!file_path_child_of(location_id, dir@)(self@.file_paths[i as int]));
                }
            }
            proof {
                lemma_filter_push(
                    self@.file_paths.take(i as int),
                    self@.file_paths[i as int],
                    file_path_child_of(location_id, dir@),
                );
                assert(self@.file_paths.take(i as int + 1) =~= self@.file_paths.take(
                    i as int,
                ).push(self@.file_paths[i as int]));
                assert(r@.map_values(|p: FilePathRecord| p@) =~= self@.file_paths.take(
                    i as int + 1,
                ).filter(file_path_child_of(location_id, dir@)));
            }
            i = i + 1;
        }
        proof {
            assert(self@.file_paths.take(n as int) =~= self@.file_paths);
        }
        r
    }

    /// Deletes the file-path records whose ids are in `ids`; ids with no
    /// record are ignored, so the deletion is idempotent.
    pub fn remove_file_paths(&mut self, ids: &Vec<i64>)
        requires
            old(self).wf(),
        ensures
            final(self).wf(),
            final(self)@ == (DbV {
                file_paths: old(self)@.file_paths.filter(file_path_id_not_in(ids@)),
                ..old(self)@
            }),
    {
        let mut kept: Vec<FilePathRecord> = Vec::new();
        let n: usize = self.file_paths.len();
        let mut i: usize = 0;
        while i < n
            invariant
                i <= n,
                n == self@.file_paths.len(),
                kept@.map_values(|p: FilePathRecord| p@) == self@.file_paths.take(i as int).filter(
                    file_path_id_not_in(ids@),
                ),
            decreases n - i,
        {
            if !vec_contains_i64(ids, self.file_paths[i].id) {
                proof {
                    assert(file_path_id_not_in(ids@)(self@.file_paths[i as int]));
                }
                kept.push(self.file_paths[i].duplicate());
            } else {
                proof {
                    assert(!file_path_id_not_in(ids@)(self@.file_paths[i as int]));
                }
            }
            proof {
                lemma_filter_push(
                    self@.file_paths.take(i as int),
                    self@.file_paths[i as int],
                    file_path_id_not_in(ids@),
                );
                assert(self@.file_paths.take(i as int + 1) =~= self@.file_paths.take(
                    i as int,
                ).push(self@.file_paths[i as int]));
                assert(kept@.map_values(|p: FilePathRecord| p@) =~= self@.file_paths.take(
                    i as int + 1,
                ).filter(file_path_id_not_in(ids@)));
            }
            i = i + 1;
        }
        proof {
            assert(self@.file_paths.take(n as int) =~= self@.file_paths);
        }
        self.file_paths = kept;
        proof {
            let oldv = old(self)@.file_paths;
            let pred = file_path_id_not_in(ids@);
            lemma_filter_preserves(
                oldv,
                pred,
                |p: FilePathV| 0 <= p.id < old(self)@.next_id,
            );
            lemma_filter_unique_by(oldv, pred, |p: FilePathV| p.id as int);
            assert(self@ =~= DbV { file_paths: oldv.filter(pred), ..old(self)@ });
        }
    }

    /// Writes the path entry into the store: an existing record of the same
    /// path keeps its id and object link and gets the new metadata; a new
    /// path gets a fresh record with no object link. A save of data already
    /// recorded leaves the store unchanged.
    pub fn upsert_file_path(&mut self, location_id: i64, path: &str, is_dir: bool, mtime: u64)
        requires
            old(self).wf(),
            old(self)@.next_id < i64::MAX,
        ensures
            final(self).wf(),
            final(self)@.nodes == old(self)@.nodes,
            final(self)@.locations == old(self)@.locations,
            final(self)@.indexer_rules == old(self)@.indexer_rules,
            final(self)@.objects == old(self)@.objects,
            final(self)@.keys == old(self)@.keys,
            match spec_find(old(self)@.file_paths, file_path_at(location_id, path@)) {
                Some(i) => {
                    &&& final(self)@.file_paths == old(self)@.file_paths.update(
                        i,
                        (FilePathV {
                            id: old(self)@.file_paths[i].id,
                            location_id,
                            path: path@,
                            is_dir,
                            mtime,
                            object_id: old(self)@.file_paths[i].object_id,
                        }),
                    )
                    &&& final(self)@.next_id == old(self)@.next_id
                },
                None => {
                    &&& final(self)@.file_paths == old(self)@.file_paths.push(
                        (FilePathV {
                            id: old(self)@.next_id,
                            location_id,
                            path: path@,
                            is_dir,
                            mtime,
                            object_id: None,
                        }),
                    )
                    &&& final(self)@.next_id == old(self)@.next_id + 1
                },
            },
    {
        proof {
            lemma_spec_find(old(self)@.file_paths, file_path_at(location_id, path@));
        }
        match self.find_file_path_index(location_id, path) {
            Some(i) => {
                let updated = FilePathRecord {
                    id: self.file_paths[i].id,
                    location_id,
                    path: path.to_owned(),
                    is_dir,
                    mtime,
                    object_id: self.file_paths[i].object_id,
                };
                vec_update(&mut self.file_paths, i, updated);
                proof {
                    assert(self@.file_paths =~= old(self)@.file_paths.update(
                        i as int,
                        (FilePathV {
                            id: old(self)@.file_paths[i as int].id,
                            location_id,
                            path: path@,
                            is_dir,
                            mtime,
                            object_id: old(self)@.file_paths[i as int].object_id,
                        }),
                    ));
                    assert(self@.nodes == old(self)@.nodes);
                    assert(self@.locations == old(self)@.locations);
                    assert(self@.indexer_rules == old(self)@.indexer_rules);
                    assert(self@.objects == old(self)@.objects);
                    assert(self@.keys == old(self)@.keys);
                }
            },
            None => {
                let id = self.next_id;
                self.file_paths.push(
                    FilePathRecord {
                        id,
                        location_id,
                        path: path.to_owned(),
                        is_dir,
                        mtime,
                        object_id: None,
                    },
                );
                self.next_id = self.next_id + 1;
                proof {
                    assert(self@.file_paths =~= old(self)@.file_paths.push(
                        (FilePathV {
                            id: old(self)@.next_id,
                            location_id,
                            path: path@,
                            is_dir,
                            mtime,
                            object_id: None,
                        }),
                    ));
                    assert(self@.nodes == old(self)@.nodes);
                    assert(self@.locations == old(self)@.locations);
                    assert(self@.indexer_rules == old(self)@.indexer_rules);
                    assert(self@.objects == old(self)@.objects);
                    assert(self@.keys == old(self)@.keys);
                }
            },
        }
    }

    /// Creates a content object and returns its id.
    pub fn insert_object(&mut self) -> (id: i64)
        requires
            old(self).wf(),
            old(self)@.next_id < i64::MAX,
        ensures
            final(self).wf(),
            final(self)@ == (DbV {
                objects: old(self)@.objects.push(old(self)@.next_id),
                next_id: (old(self)@.next_id + 1) as i64,
                ..old(self)@
            }),
            id == old(self)@.next_id,
    {
        let id = self.next_id;
        self.objects.push(id);
        self.next_id = self.next_id + 1;
        proof {
            assert(self@ =~= DbV {
                objects: old(self)@.objects.push(old(self)@.next_id),
                next_id: (old(self)@.next_id + 1) as i64,
                ..old(self)@
            });
        }
        id
    }

    /// Points the file-path record at index-found `path_id` at an object;
    /// returns whether such a record exists.
    pub fn set_file_path_object(&mut self, path_id: i64, object_id: i64) -> (r: bool)
        requires
            old(self).wf(),
        ensures
            final(self).wf(),
            match spec_find(old(self)@.file_paths, |p: FilePathV| p.id == path_id) {
                Some(i) => r && final(self)@ == (DbV {
                    file_paths: old(self)@.file_paths.update(
                        i,
                        (FilePathV { object_id: Some(object_id), ..old(self)@.file_paths[i] }),
                    ),
                    ..old(self)@
                }),
                None => !r && final(self)@ == old(self)@,
            },
    {
        let n: usize = self.file_paths.len();
        let mut i: usize = 0;
        while i < n
            invariant
                i <= n,
                n == self@.file_paths.len(),
                *self == *old(self),
                old(self).wf(),
                forall|j: int| 0 <= j < i ==> (#[trigger] self@.file_paths[j]).id != path_id,
            decreases n - i,
        {
            if self.file_paths[i].id == path_id {
                proof {
                    lemma_spec_find_is_first(
                        self@.file_paths,
                        |p: FilePathV| p.id == path_id,
                        i as int,
                    );
                }
                let updated = FilePathRecord {
                    id: self.file_paths[i].id,
                    location_id: self.file_paths[i].location_id,
                    path: self.file_paths[i].path.clone(),
                    is_dir: self.file_paths[i].is_dir,
                    mtime: self.file_paths[i].mtime,
                    object_id: Some(object_id),
                };
                vec_update(&mut self.file_paths, i, updated);
                proof {
                    assert(self@.file_paths =~= old(self)@.file_paths.update(
                        i as int,
                        (FilePathV {
                            object_id: Some(object_id),
                            ..old(self)@.file_paths[i as int]
                        }),
                    ));
                    assert(self@ =~= DbV {
                        file_paths: old(self)@.file_paths.update(
                            i as int,
                            (FilePathV {
                                object_id: Some(object_id),
                                ..old(self)@.file_paths[i as int]
                            }),
                        ),
                        ..old(self)@
                    });
                }
                return true;
            }
            i = i + 1;
        }
        proof {
            lemma_spec_find_none(self@.file_paths, |p: FilePathV| p.id == path_id);
        }
        false
    }

    /// One reclamation sweep: deletes every object no file-path record
    /// references. Everything else is untouched.
    pub fn sweep_orphans(&mut self)
        requires
            old(self).wf(),
        ensures
            final(self).wf(),
            final(self)@ == (DbV {
                objects: old(self)@.objects.filter(object_referenced_in(old(self)@.file_paths)),
                ..old(self)@
            }),
    {
        let ghost pred = object_referenced_in(self@.file_paths);
        let mut kept: Vec<i64> = Vec::new();
        let n: usize = self.objects.len();
        let mut i: usize = 0;
        while i < n
            invariant
                i <= n,
                n == self@.objects.len(),
                *self == *old(self),
                kept@ == self@.objects.take(i as int).filter(
                    object_referenced_in(self@.file_paths),
                ),
            decreases n - i,
        {
            let o = self.objects[i];
            if self.object_is_referenced(o) {
                kept.push(o);
            }
            proof {
                lemma_filter_push(
                    self@.objects.take(i as int),
                    self@.objects[i as int],
                    object_referenced_in(self@.file_paths),
                );
                assert(self@.objects.take(i as int + 1) =~= self@.objects.take(i as int).push(
                    self@.objects[i as int],
                ));
                assert(kept@ =~= self@.objects.take(i as int + 1).filter(
                    object_referenced_in(self@.file_paths),
                ));
            }
            i = i + 1;
        }
        proof {
            assert(self@.objects.take(n as int) =~= self@.objects);
        }
        self.objects = kept;
        proof {
            let oldv = old(self)@.objects;
            let p = object_referenced_in(old(self)@.file_paths);
            lemma_filter_preserves(oldv, p, |o: i64| 0 <= o < old(self)@.next_id);
            lemma_filter_unique_by(oldv, p, |o: i64| o as int);
            assert(self@ =~= DbV { objects: oldv.filter(p), ..old(self)@ });
        }
    }
}

} // verus!

//! The incremental indexer: shallow (one-directory-level) reconciliation of
//! a location's recorded paths against the real filesystem.
//!
//! The driver reads the target directory and hands the listing in as plain
//! values; everything after that — rule compilation, sub-path validation,
//! the delta against recorded paths, batched saves and the reclamation
//! request — is verified logic.

use vstd::prelude::*;
use crate::db::DbV;
use crate::db::FilePathRecord;
use crate::db::FilePathV;
use crate::db::LibraryDb;
use crate::db::LocationRecord;
use crate::db::IndexerRuleRecord;
use crate::db::RuleV;
use crate::db::file_path_at;
use crate::db::file_path_child_of;
use crate::db::file_path_id_not_in;
use crate::db::spec_rules_for;
use crate::library::Library;
use crate::text::spec_join_path;
use crate::text::join_path;
use crate::text::spec_is_direct_child;
use crate::text::lemma_join_direct_child;
use crate::text::str_concat;
use crate::text::str_eq_str;
use crate::text::str_starts_with;
use crate::vecs::spec_find;
use crate::vecs::lemma_spec_find;
use crate::vecs::lemma_filter_push;
use crate::vecs::lemma_map_push;

verus! {

/// Entries are saved in fixed-size batches to bound transaction size.
pub const BATCH_SIZE: usize = 1000;

/// Rule kind tag: reject an entry whose name equals the rule's pattern.
pub const RULE_KIND_REJECT_NAME: u8 = 0;

/// Rule kind tag: reject hidden entries (name starting with a dot).
pub const RULE_KIND_REJECT_HIDDEN: u8 = 1;

/// What the indexer can fail with.
#[derive(Debug)]
pub enum IndexerError {
    /// A persisted rule could not be compiled (unknown kind tag).
    RuleCompile(String),
    /// The given sub-path does not lie inside the location root.
    SubPathNotInLocation(String),
    /// The given sub-path exists but is not a directory, or does not exist.
    SubPathNotADirectory(String),
}

/// A compiled indexer rule: an exclusion predicate applied to each walked
/// entry.
#[derive(Debug)]
pub enum IndexerRule {
    /// Rejects entries whose name equals the pattern.
    RejectIfNameEquals(String),
    /// Rejects entries whose name starts with a dot.
    RejectHiddenEntries,
}

/// Mathematical view of a compiled rule.
pub ghost enum RuleFilterV {
    RejectName(Seq<char>),
    RejectHidden,
}

impl View for IndexerRule {
    type V = RuleFilterV;

    open spec fn view(&self) -> RuleFilterV {
        match self {
            IndexerRule::RejectIfNameEquals(p) => RuleFilterV::RejectName(p@),
            IndexerRule::RejectHiddenEntries => RuleFilterV::RejectHidden,
        }
    }
}

/// What a persisted rule compiles to, `None` for an unknown kind tag.
pub open spec fn spec_compile_rule(r: RuleV) -> Option<RuleFilterV> {
    if r.kind == RULE_KIND_REJECT_NAME {
        Some(RuleFilterV::RejectName(r.pattern))
    } else if r.kind == RULE_KIND_REJECT_HIDDEN {
        Some(RuleFilterV::RejectHidden)
    } else {
        None
    }
}

/// Whether every rule of a persisted set compiles.
pub open spec fn spec_rules_compile(rules: Seq<RuleV>) -> bool {
    forall|i: int| 0 <= i < rules.len() ==> spec_compile_rule(#[trigger] rules[i]) is Some
}

/// Compiles a location's persisted rules into exclusion predicates; a rule
/// with an unknown kind tag fails the whole compilation.
pub fn compile_indexer_rules(records: &Vec<IndexerRuleRecord>) -> (r: Result<
    Vec<IndexerRule>,
    IndexerError,
>)
    ensures
        r is Ok <==> spec_rules_compile(records@.map_values(|x: IndexerRuleRecord| x@)),
        r matches Ok(rules) ==> rules@.map_values(|x: IndexerRule| x@) == Seq::new(
            records@.len(),
            |i: int| spec_compile_rule(records@.map_values(|x: IndexerRuleRecord| x@)[i])->Some_0,
        ),
        r is Err ==> r->Err_0 is RuleCompile,
{
    let ghost rv = records@.map_values(|x: IndexerRuleRecord| x@);
    let mut rules: Vec<IndexerRule> = Vec::new();
    let n: usize = records.len();
    let mut i: usize = 0;
    while i < n
        invariant
            i <= n,
            n == records@.len(),
            rv == records@.map_values(|x: IndexerRuleRecord| x@),
            forall|j: int| 0 <= j < i ==> spec_compile_rule(#[trigger] rv[j]) is Some,
            rules@.len() == i,
            forall|j: int|
                0 <= j < i ==> (#[trigger] rules@[j])@ == spec_compile_rule(rv[j])->Some_0,
        decreases n - i,
    {
        let rec = &records[i];
        if rec.kind == RULE_KIND_REJECT_NAME {
            rules.push(IndexerRule::RejectIfNameEquals(rec.pattern.clone()));
        } else if rec.kind == RULE_KIND_REJECT_HIDDEN {
            rules.push(IndexerRule::RejectHiddenEntries);
        } else {
            proof {
                assert(rv[i as int] == records@[i as int]@);
                assert(spec_compile_rule(rv[i as int]) is None);
            }
            return Err(
                IndexerError::RuleCompile(
                    str_concat("unknown indexer rule kind for rule: ", rec.pattern.as_str()),
                ),
            );
        }
        proof {
            assert(rv[i as int] == records@[i as int]@);
        }
        i = i + 1;
    }
    proof {
        assert(rules@.map_values(|x: IndexerRule| x@) =~= Seq::new(
            rv.len(),
            |i: int| spec_compile_rule(rv[i])->Some_0,
        ));
    }
    Ok(rules)
}

/// Seeds a fresh library database with the default indexer rules.
pub fn indexer_rules_seeder(db: &mut LibraryDb)
    requires
        old(db).wf(),
        old(db)@.next_id + 2 <= i64::MAX,
    ensures
        final(db).wf(),
        final(db)@.indexer_rules == old(db)@.indexer_rules.push(
            (RuleV { id: old(db)@.next_id, kind: RULE_KIND_REJECT_HIDDEN, pattern: ""@ }),
        ).push(
            (RuleV {
                id: (old(db)@.next_id + 1) as i64,
                kind: RULE_KIND_REJECT_NAME,
                pattern: "node_modules"@,
            }),
        ),
        final(db)@.nodes == old(db)@.nodes,
        final(db)@.locations == old(db)@.locations,
        final(db)@.file_paths == old(db)@.file_paths,
        final(db)@.objects == old(db)@.objects,
        final(db)@.keys == old(db)@.keys,
        final(db)@.next_id == old(db)@.next_id + 2,
{
    db.insert_indexer_rule(RULE_KIND_REJECT_HIDDEN, "");
    db.insert_indexer_rule(RULE_KIND_REJECT_NAME, "node_modules");
}

/// Whether one compiled rule rejects an entry name.
pub open spec fn spec_rule_rejects(r: RuleFilterV, name: Seq<char>) -> bool {
    match r {
        RuleFilterV::RejectName(p) => p == name,
        RuleFilterV::RejectHidden => name.len() > 0 && name[0] == '.',
    }
}

/// An entry passes when no rule rejects its name.
pub open spec fn spec_entry_accepted(rules: Seq<RuleFilterV>, name: Seq<char>) -> bool {
    forall|i: int| 0 <= i < rules.len() ==> !spec_rule_rejects(#[trigger] rules[i], name)
}

/// Applies the compiled rules to one entry name.
pub fn entry_accepted(rules: &Vec<IndexerRule>, name: &str) -> (r: bool)
    ensures
        r == spec_entry_accepted(rules@.map_values(|x: IndexerRule| x@), name@),
{
    let ghost rv = rules@.map_values(|x: IndexerRule| x@);
    let n: usize = rules.len();
    let mut i: usize = 0;
    while i < n
        invariant
            i <= n,
            n == rules@.len(),
            rv == rules@.map_values(|x: IndexerRule| x@),
            forall|j: int| 0 <= j < i ==> !spec_rule_rejects(#[trigger] rv[j], name@),
        decreases n - i,
    {
        let rejected: bool = match &rules[i] {
            IndexerRule::RejectIfNameEquals(p) => str_eq_str(p.as_str(), name),
            IndexerRule::RejectHiddenEntries => {
                if name.unicode_len() > 0 {
                    name.get_char(0) == '.'
                } else {
                    false
                }
            },
        };
        proof {
            assert(rv[i as int] == rules@[i as int]@);
        }
        if rejected {
            proof {
                assert(spec_rule_rejects(rv[i as int], name@));
            }
            return false;
        }
        proof {
            assert(!spec_rule_rejects(rv[i as int], name@));
        }
        i = i + 1;
    }
    true
}

/// One entry of a directory listing, as the driver read it from disk. An
/// unreadable entry carries its name but no usable metadata.
#[derive(Debug)]
pub struct DiskEntry {
    pub name: String,
    pub is_dir: bool,
    pub mtime: u64,
    pub readable: bool,
}

/// Mathematical view of a directory-listing entry.
pub ghost struct DiskEntryV {
    pub name: Seq<char>,
    pub is_dir: bool,
    pub mtime: u64,
    pub readable: bool,
}

impl View for DiskEntry {
    type V = DiskEntryV;

    open spec fn view(&self) -> DiskEntryV {
        DiskEntryV {
            name: self.name@,
            is_dir: self.is_dir,
            mtime: self.mtime,
            readable: self.readable,
        }
    }
}

/// A directory listing is well-formed when entry names are non-empty, hold
/// no separator, and are pairwise distinct — as a real directory's are.
pub open spec fn spec_listing_wf(entries: Seq<DiskEntryV>) -> bool {
    &&& forall|i: int|
        0 <= i < entries.len() ==> (#[trigger] entries[i]).name.len() > 0 && !entries[i].name.contains(
            '/',
        )
    &&& forall|i: int, j: int|
        0 <= i < j < entries.len() ==> (#[trigger] entries[i]).name != (
        #[trigger] entries[j]).name
}

/// One discovered (new or changed) path entry to be saved.
#[derive(Debug)]
pub struct WalkedEntry {
    pub path: String,
    pub is_dir: bool,
    pub mtime: u64,
}

/// Mathematical view of a discovered entry.
pub ghost struct WalkedEntryV {
    pub path: Seq<char>,
    pub is_dir: bool,
    pub mtime: u64,
}

impl View for WalkedEntry {
    type V = WalkedEntryV;

    open spec fn view(&self) -> WalkedEntryV {
        WalkedEntryV { path: self.path@, is_dir: self.is_dir, mtime: self.mtime }
    }
}

impl WalkedEntry {
    /// An owned copy with the same contents.
    pub fn duplicate(&self) -> (r: WalkedEntry)
        ensures
            r@ == self@,
    {
        WalkedEntry { path: self.path.clone(), is_dir: self.is_dir, mtime: self.mtime }
    }
}

/// Whether a record of exactly this path with exactly this metadata exists.
pub open spec fn spec_recorded_same(
    recorded: Seq<FilePathV>,
    path: Seq<char>,
    is_dir: bool,
    mtime: u64,
) -> bool {
    exists|i: int|
        0 <= i < recorded.len() && (#[trigger] recorded[i]).path == path && recorded[i].is_dir
            == is_dir && recorded[i].mtime == mtime
}

/// Whether some listing entry names this path (readable or not: a path that
/// exists on disk is never up for removal).
pub open spec fn spec_on_disk(target: Seq<char>, entries: Seq<DiskEntryV>, path: Seq<char>) -> bool {
    exists|i: int|
        0 <= i < entries.len() && spec_join_path(target, (#[trigger] entries[i]).name) == path
}

/// The discovered entries of one walk, in listing order: readable entries
/// that pass the rules and are not already recorded with the same metadata.
pub open spec fn spec_discovered(
    target: Seq<char>,
    entries: Seq<DiskEntryV>,
    rules: Seq<RuleFilterV>,
    recorded: Seq<FilePathV>,
) -> Seq<WalkedEntryV>
    decreases entries.len(),
{
    if entries.len() == 0 {
        Seq::empty()
    } else {
        let front = spec_discovered(target, entries.drop_last(), rules, recorded);
        let e = entries.last();
        if e.readable && spec_entry_accepted(rules, e.name) && !spec_recorded_same(
            recorded,
            spec_join_path(target, e.name),
            e.is_dir,
            e.mtime,
        ) {
            front.push(
                WalkedEntryV { path: spec_join_path(target, e.name), is_dir: e.is_dir, mtime: e.mtime },
            )
        } else {
            front
        }
    }
}

/// Predicate: a recorded path no listing entry names.
pub open spec fn record_gone(target: Seq<char>, entries: Seq<DiskEntryV>) -> spec_fn(
    FilePathV,
) -> bool {
    |p: FilePathV| !spec_on_disk(target, entries, p.path)
}

/// Projection: a file-path record's id.
pub open spec fn file_path_id_of() -> spec_fn(FilePathV) -> i64 {
    |p: FilePathV| p.id
}

/// The ids of recorded paths no longer present on disk.
pub open spec fn spec_to_remove(
    target: Seq<char>,
    entries: Seq<DiskEntryV>,
    recorded: Seq<FilePathV>,
) -> Seq<i64> {
    recorded.filter(record_gone(target, entries)).map_values(file_path_id_of())
}

/// Predicate: an unreadable listing entry.
pub open spec fn entry_unreadable() -> spec_fn(DiskEntryV) -> bool {
    |e: DiskEntryV| !e.readable
}

/// The error message logged for an unreadable entry.
pub open spec fn unreadable_message() -> spec_fn(DiskEntryV) -> Seq<char> {
    |e: DiskEntryV| "unreadable entry: "@ + e.name
}

/// The non-fatal errors of one walk: one message per unreadable entry.
pub open spec fn spec_walk_errors(entries: Seq<DiskEntryV>) -> Seq<Seq<char>> {
    entries.filter(entry_unreadable()).map_values(unreadable_message())
}

/// The delta one shallow walk produces.
#[derive(Debug)]
pub struct WalkResult {
    /// Discovered (new or changed) entries, in listing order; when the walk
    /// root itself is unrecorded, it comes first.
    pub walked: Vec<WalkedEntry>,
    /// Ids of recorded paths no longer present on disk.
    pub to_remove: Vec<i64>,
    /// Per-entry non-fatal errors, logged by the driver, never fatal.
    pub errors: Vec<String>,
}

/// Walks exactly one directory level: computes the delta between the
/// listing read from disk and the paths recorded for that level. With
/// `add_root` the target directory itself is discovered too (used when a
/// sub-path scan finds no record of the sub-path).
pub fn walk_single_dir(
    target: &str,
    target_mtime: u64,
    entries: &Vec<DiskEntry>,
    rules: &Vec<IndexerRule>,
    recorded: &Vec<FilePathRecord>,
    add_root: bool,
) -> (r: WalkResult)
    ensures
        ({
            let ev = entries@.map_values(|e: DiskEntry| e@);
            let rulesv = rules@.map_values(|x: IndexerRule| x@);
            let recv = recorded@.map_values(|p: FilePathRecord| p@);
            let discovered = spec_discovered(target@, ev, rulesv, recv);
            &&& r.walked@.map_values(|w: WalkedEntry| w@) == if add_root {
                seq![
                    (WalkedEntryV { path: target@, is_dir: true, mtime: target_mtime }),
                ] + discovered
            } else {
                discovered
            }
            &&& r.to_remove@ == spec_to_remove(target@, ev, recv)
            &&& r.errors@.map_values(|s: String| s@) == spec_walk_errors(ev)
        }),
{
    let ghost ev = entries@.map_values(|e: DiskEntry| e@);
    let ghost rulesv = rules@.map_values(|x: IndexerRule| x@);
    let ghost recv = recorded@.map_values(|p: FilePathRecord| p@);
    let mut walked: Vec<WalkedEntry> = Vec::new();
    let mut errors: Vec<String> = Vec::new();
    if add_root {
        walked.push(WalkedEntry { path: target.to_owned(), is_dir: true, mtime: target_mtime });
    }
    let ghost root_prefix = walked@.map_values(|w: WalkedEntry| w@);
    let n: usize = entries.len();
    let mut i: usize = 0;
    while i < n
        invariant
            i <= n,
            n == entries@.len(),
            ev == entries@.map_values(|e: DiskEntry| e@),
            rulesv == rules@.map_values(|x: IndexerRule| x@),
            recv == recorded@.map_values(|p: FilePathRecord| p@),
            root_prefix == if add_root {
                seq![(WalkedEntryV { path: target@, is_dir: true, mtime: target_mtime })]
            } else {
                Seq::<WalkedEntryV>::empty()
            },
            walked@.map_values(|w: WalkedEntry| w@) == root_prefix + spec_discovered(
                target@,
                ev.take(i as int),
                rulesv,
                recv,
            ),
            errors@.map_values(|s: String| s@) == spec_walk_errors(ev.take(i as int)),
        decreases n - i,
    {
        let e = &entries[i];
        proof {
            assert(ev[i as int] == entries@[i as int]@);
            assert(ev.take(i as int + 1).drop_last() =~= ev.take(i as int));
            assert(ev.take(i as int + 1).last() == ev[i as int]);
            assert(ev.take(i as int + 1) =~= ev.take(i as int).push(ev[i as int]));
            lemma_filter_push(ev.take(i as int), ev[i as int], entry_unreadable());
        }
        let ghost front = spec_discovered(target@, ev.take(i as int), rulesv, recv);
        if !e.readable {
            errors.push(str_concat("unreadable entry: ", e.name.as_str()));
            proof {
                lemma_map_push(
                    ev.take(i as int).filter(entry_unreadable()),
                    unreadable_message(),
                    ev[i as int],
                );
                assert(errors@.map_values(|s: String| s@) =~= spec_walk_errors(
                    ev.take(i as int + 1),
                ));
                assert(spec_discovered(target@, ev.take(i as int + 1), rulesv, recv) == front);
                assert(walked@.map_values(|w: WalkedEntry| w@) =~= root_prefix + spec_discovered(
                    target@,
                    ev.take(i as int + 1),
                    rulesv,
                    recv,
                ));
            }
        } else {
            proof {
                assert(errors@.map_values(|s: String| s@) =~= spec_walk_errors(
                    ev.take(i as int + 1),
                ));
            }
            let accepted = entry_accepted(rules, e.name.as_str());
            if accepted {
                let full = join_path(target, e.name.as_str());
                if !recorded_same(recorded, full.as_str(), e.is_dir, e.mtime) {
                    let w = WalkedEntry { path: full, is_dir: e.is_dir, mtime: e.mtime };
                    let ghost wv = w@;
                    walked.push(w);
                    proof {
                        assert(wv == (WalkedEntryV {
                            path: spec_join_path(target@, ev[i as int].name),
                            is_dir: ev[i as int].is_dir,
                            mtime: ev[i as int].mtime,
                        }));
                        assert(spec_discovered(target@, ev.take(i as int + 1), rulesv, recv)
                            == front.push(wv));
                        assert(walked@.map_values(|w: WalkedEntry| w@) =~= (root_prefix
                            + front).push(wv));
                        assert((root_prefix + front).push(wv) =~= root_prefix + front.push(wv));
                        assert(walked@.map_values(|w: WalkedEntry| w@) =~= root_prefix
                            + spec_discovered(target@, ev.take(i as int + 1), rulesv, recv));
                    }
                } else {
                    proof {
                        assert(spec_discovered(target@, ev.take(i as int + 1), rulesv, recv)
                            == front);
                        assert(walked@.map_values(|w: WalkedEntry| w@) =~= root_prefix
                            + spec_discovered(target@, ev.take(i as int + 1), rulesv, recv));
                    }
                }
            } else {
                proof {
                    assert(spec_discovered(target@, ev.take(i as int + 1), rulesv, recv) == front);
                    assert(walked@.map_values(|w: WalkedEntry| w@) =~= root_prefix
                        + spec_discovered(target@, ev.take(i as int + 1), rulesv, recv));
                }
            }
        }
        i = i + 1;
    }
    let to_remove = removal_candidates(target, entries, recorded);
    proof {
        assert(ev.take(n as int) =~= ev);
    }
    WalkResult { walked, to_remove, errors }
}

/// Whether a record with this path and metadata already exists.
fn recorded_same(recorded: &Vec<FilePathRecord>, path: &str, is_dir: bool, mtime: u64) -> (r: bool)
    ensures
        r == spec_recorded_same(
            recorded@.map_values(|p: FilePathRecord| p@),
            path@,
            is_dir,
            mtime,
        ),
{
    let ghost recv = recorded@.map_values(|p: FilePathRecord| p@);
    let n: usize = recorded.len();
    let mut i: usize = 0;
    while i < n
        invariant
            i <= n,
            n == recorded@.len(),
            recv == recorded@.map_values(|p: FilePathRecord| p@),
            forall|j: int|
                0 <= j < i ==> !((#[trigger] recv[j]).path == path@ && recv[j].is_dir == is_dir
                    && recv[j].mtime == mtime),
        decreases n - i,
    {
        let rec = &recorded[i];
        proof {
            assert(recv[i as int] == recorded@[i as int]@);
        }
        if str_eq_str(rec.path.as_str(), path) && rec.is_dir == is_dir && rec.mtime == mtime {
            proof {
                assert(recv[i as int].path == path@ && recv[i as int].is_dir == is_dir
                    && recv[i as int].mtime == mtime);
            }
            return true;
        }
        i = i + 1;
    }
    false
}

/// Whether some listing entry names this path.
fn path_on_disk(target: &str, entries: &Vec<DiskEntry>, path: &str) -> (r: bool)
    ensures
        r == spec_on_disk(target@, entries@.map_values(|e: DiskEntry| e@), path@),
{
    let ghost ev = entries@.map_values(|e: DiskEntry| e@);
    let n: usize = entries.len();
    let mut i: usize = 0;
    while i < n
        invariant
            i <= n,
            n == entries@.len(),
            ev == entries@.map_values(|e: DiskEntry| e@),
            forall|j: int|
                0 <= j < i ==> spec_join_path(target@, (#[trigger] ev[j]).name) != path@,
        decreases n - i,
    {
        proof {
            assert(ev[i as int] == entries@[i as int]@);
        }
        let full = join_path(target, entries[i].name.as_str());
        if str_eq_str(full.as_str(), path) {
            return true;
        }
        i = i + 1;
    }
    false
}

/// The ids of recorded paths that no listing entry names.
fn removal_candidates(target: &str, entries: &Vec<DiskEntry>, recorded: &Vec<FilePathRecord>) -> (r:
    Vec<i64>)
    ensures
        r@ == spec_to_remove(
            target@,
            entries@.map_values(|e: DiskEntry| e@),
            recorded@.map_values(|p: FilePathRecord| p@),
        ),
{
    let ghost ev = entries@.map_values(|e: DiskEntry| e@);
    let ghost recv = recorded@.map_values(|p: FilePathRecord| p@);
    let mut r: Vec<i64> = Vec::new();
    let n: usize = recorded.len();
    let mut i: usize = 0;
    while i < n
        invariant
            i <= n,
            n == recorded@.len(),
            ev == entries@.map_values(|e: DiskEntry| e@),
            recv == recorded@.map_values(|p: FilePathRecord| p@),
            r@ == recv.take(i as int).filter(record_gone(target@, ev)).map_values(
                file_path_id_of(),
            ),
        decreases n - i,
    {
        proof {
            assert(recv[i as int] == recorded@[i as int]@);
        }
        if !path_on_disk(target, entries, recorded[i].path.as_str()) {
            proof {
                assert(record_gone(target@, ev)(recv[i as int]));
            }
            r.push(recorded[i].id);
        } else {
            proof {
                assert(!record_gone(target@, ev)(recv[i as int]));
            }
        }
        proof {
            lemma_filter_push(recv.take(i as int), recv[i as int], record_gone(target@, ev));
            assert(recv.take(i as int + 1) =~= recv.take(i as int).push(recv[i as int]));
            assert(r@ =~= recv.take(i as int + 1).filter(record_gone(target@, ev)).map_values(
                file_path_id_of(),
            ));
        }
        i = i + 1;
    }
    proof {
        assert(recv.take(n as int) =~= recv);
    }
    r
}


/// What a filesystem probe of the sub-path found.
#[derive(Clone, Copy, Debug, PartialEq, Eq, Structural)]
pub enum FsNodeKind {
    Missing,
    File,
    Dir,
}

/// A sub-path lies inside a location root when the root is a proper prefix
/// followed by a separator.
pub open spec fn spec_sub_path_in_location(root: Seq<char>, sub: Seq<char>) -> bool {
    root.is_prefix_of(sub) && sub.len() > root.len() && sub[root.len() as int] == '/'
}

/// Validates that the sub-path lies inside the location root.
pub fn ensure_sub_path_is_in_location(location_path: &str, sub_path: &str) -> (r: Result<
    (),
    IndexerError,
>)
    ensures
        r is Ok <==> spec_sub_path_in_location(location_path@, sub_path@),
        r is Err ==> r->Err_0 is SubPathNotInLocation,
{
    if str_starts_with(sub_path, location_path) && sub_path.unicode_len()
        > location_path.unicode_len() && sub_path.get_char(location_path.unicode_len()) == '/' {
        Ok(())
    } else {
        Err(
            IndexerError::SubPathNotInLocation(
                str_concat("sub path is not inside the location root: ", sub_path),
            ),
        )
    }
}

/// Validates that the probed sub-path is a directory.
pub fn ensure_sub_path_is_directory(sub_path: &str, kind: &FsNodeKind) -> (r: Result<
    (),
    IndexerError,
>)
    ensures
        r is Ok <==> *kind == FsNodeKind::Dir,
        r is Err ==> r->Err_0 is SubPathNotADirectory,
{
    match kind {
        FsNodeKind::Dir => Ok(()),
        _ => Err(
            IndexerError::SubPathNotADirectory(
                str_concat("sub path is not a directory: ", sub_path),
            ),
        ),
    }
}

/// One batched save: a chunk of discovered entries persisted as a single
/// step.
#[derive(Debug)]
pub struct IndexerJobSaveStep {
    pub chunk_idx: usize,
    pub walked: Vec<WalkedEntry>,
}

/// Mathematical view of a save step.
pub ghost struct SaveStepV {
    pub chunk_idx: int,
    pub walked: Seq<WalkedEntryV>,
}

impl View for IndexerJobSaveStep {
    type V = SaveStepV;

    open spec fn view(&self) -> SaveStepV {
        SaveStepV {
            chunk_idx: self.chunk_idx as int,
            walked: self.walked@.map_values(|w: WalkedEntry| w@),
        }
    }
}

/// Projection: the entries of a save step.
pub open spec fn step_walked_of() -> spec_fn(IndexerJobSaveStep) -> Seq<WalkedEntryV> {
    |s: IndexerJobSaveStep| s@.walked
}

/// Partitions the discovered entries into save steps of at most
/// `BATCH_SIZE` entries, in walk order: steps are numbered from zero, every
/// step but the last holds exactly `BATCH_SIZE` entries, their
/// concatenation is the input, and there are exactly `ceil(n / BATCH_SIZE)`
/// of them — so the sum of entries across steps is `n`.
pub fn batch_steps(walked: &Vec<WalkedEntry>) -> (steps: Vec<IndexerJobSaveStep>)
    ensures
        steps@.len() == (walked@.len() + BATCH_SIZE - 1) / (BATCH_SIZE as int),
        forall|k: int| 0 <= k < steps@.len() ==> (#[trigger] steps@[k])@.chunk_idx == k,
        forall|k: int|
            0 <= k < steps@.len() - 1 ==> (#[trigger] steps@[k])@.walked.len() == BATCH_SIZE,
        steps@.len() > 0 ==> 0 < steps@.last()@.walked.len() <= BATCH_SIZE,
        steps@.map_values(step_walked_of()).flatten() == walked@.map_values(
            |w: WalkedEntry| w@,
        ),
        steps@.map_values(step_walked_of()).flatten().len() == walked@.len(),
{
    let ghost wv = walked@.map_values(|w: WalkedEntry| w@);
    let mut steps: Vec<IndexerJobSaveStep> = Vec::new();
    let n: usize = walked.len();
    let mut i: usize = 0;
    while i < n
        invariant
            i <= n,
            n == walked@.len(),
            wv == walked@.map_values(|w: WalkedEntry| w@),
            steps@.map_values(step_walked_of()).flatten() == wv.take(i as int),
            forall|k: int| 0 <= k < steps@.len() ==> (#[trigger] steps@[k])@.chunk_idx == k,
            i < n ==> i == steps@.len() * BATCH_SIZE && (forall|k: int|
                0 <= k < steps@.len() ==> (#[trigger] steps@[k])@.walked.len() == BATCH_SIZE),
            i == n ==> ((n == 0 && steps@.len() == 0) || (steps@.len() >= 1 && (forall|k: int|
                0 <= k < steps@.len() - 1 ==> (#[trigger] steps@[k])@.walked.len() == BATCH_SIZE)
                && 0 < steps@.last()@.walked.len() <= BATCH_SIZE && (steps@.len() - 1)
                * BATCH_SIZE + steps@.last()@.walked.len() == n)),
        decreases n - i,
    {
        let end: usize = if n - i < BATCH_SIZE {
            n
        } else {
            i + BATCH_SIZE
        };
        let mut chunk: Vec<WalkedEntry> = Vec::new();
        let mut j: usize = i;
        while j < end
            invariant
                i <= j <= end <= n,
                n == walked@.len(),
                wv == walked@.map_values(|w: WalkedEntry| w@),
                chunk@.map_values(|w: WalkedEntry| w@) == wv.subrange(i as int, j as int),
            decreases end - j,
        {
            chunk.push(walked[j].duplicate());
            proof {
                assert(wv[j as int] == walked@[j as int]@);
                assert(chunk@.map_values(|w: WalkedEntry| w@) =~= wv.subrange(
                    i as int,
                    j as int,
                ).push(wv[j as int]));
                assert(wv.subrange(i as int, j as int).push(wv[j as int]) =~= wv.subrange(
                    i as int,
                    j as int + 1,
                ));
            }
            j = j + 1;
        }
        let ghost chunkv = chunk@.map_values(|w: WalkedEntry| w@);
        let ghost steps_old = steps@;
        let idx = steps.len();
        let step = IndexerJobSaveStep { chunk_idx: idx, walked: chunk };
        proof {
            assert(step@.walked == chunkv);
        }
        steps.push(step);
        proof {
            assert(steps@.map_values(step_walked_of()) =~= steps_old.map_values(
                step_walked_of(),
            ).push(chunkv));
            steps_old.map_values(step_walked_of()).lemma_flatten_push(chunkv);
            assert(steps@.map_values(step_walked_of()).flatten() =~= wv.take(end as int));
        }
        i = end;
    }
    proof {
        assert(wv.take(n as int) =~= wv);
        if n > 0 {
            assert(steps@.len() == (n + BATCH_SIZE - 1) / (BATCH_SIZE as int)) by {
                assert((steps@.len() - 1) * BATCH_SIZE + steps@.last()@.walked.len() == n);
            }
        }
    }
    steps
}


/// The compiled forms of a persisted rule set that compiles.
pub open spec fn spec_compiled(rules: Seq<RuleV>) -> Seq<RuleFilterV> {
    Seq::new(rules.len(), |i: int| spec_compile_rule(rules[i])->Some_0)
}

/// What one save does to the file-path table: an existing record of the
/// path keeps its id and object link and takes the new metadata; a new path
/// gets a fresh record. Returns the table and the next free id.
pub open spec fn spec_upsert_one(
    paths: Seq<FilePathV>,
    next_id: i64,
    location_id: i64,
    e: WalkedEntryV,
) -> (Seq<FilePathV>, i64) {
    match spec_find(paths, file_path_at(location_id, e.path)) {
        Some(i) => (
            paths.update(
                i,
                FilePathV {
                    id: paths[i].id,
                    location_id,
                    path: e.path,
                    is_dir: e.is_dir,
                    mtime: e.mtime,
                    object_id: paths[i].object_id,
                },
            ),
            next_id,
        ),
        None => (
            paths.push(
                FilePathV {
                    id: next_id,
                    location_id,
                    path: e.path,
                    is_dir: e.is_dir,
                    mtime: e.mtime,
                    object_id: None,
                },
            ),
            (next_id + 1) as i64,
        ),
    }
}

/// The file-path table and next id after saving a sequence of entries in
/// order.
pub open spec fn spec_apply_saves(
    paths: Seq<FilePathV>,
    next_id: i64,
    location_id: i64,
    w: Seq<WalkedEntryV>,
) -> (Seq<FilePathV>, i64)
    decreases w.len(),
{
    if w.len() == 0 {
        (paths, next_id)
    } else {
        let prev = spec_apply_saves(paths, next_id, location_id, w.drop_last());
        spec_upsert_one(prev.0, prev.1, location_id, w.last())
    }
}

/// Saving a concatenation is saving the parts in order.
pub proof fn lemma_apply_saves_concat(
    paths: Seq<FilePathV>,
    next_id: i64,
    location_id: i64,
    w1: Seq<WalkedEntryV>,
    w2: Seq<WalkedEntryV>,
)
    ensures
        spec_apply_saves(paths, next_id, location_id, w1 + w2) == ({
            let a = spec_apply_saves(paths, next_id, location_id, w1);
            spec_apply_saves(a.0, a.1, location_id, w2)
        }),
    decreases w2.len(),
{
    if w2.len() == 0 {
        assert(w1 + w2 =~= w1);
    } else {
        lemma_apply_saves_concat(paths, next_id, location_id, w1, w2.drop_last());
        assert((w1 + w2).drop_last() =~= w1 + w2.drop_last());
        assert((w1 + w2).last() == w2.last());
    }
}

/// A walk discovers at most one entry per listing entry.
pub proof fn lemma_discovered_len(
    target: Seq<char>,
    entries: Seq<DiskEntryV>,
    rules: Seq<RuleFilterV>,
    recorded: Seq<FilePathV>,
)
    ensures
        spec_discovered(target, entries, rules, recorded).len() <= entries.len(),
    decreases entries.len(),
{
    if entries.len() > 0 {
        lemma_discovered_len(target, entries.drop_last(), rules, recorded);
    }
}

/// Persists one batch of discovered entries as a single save step and
/// returns how many entries it wrote.
pub fn execute_indexer_save_step(
    location_id: i64,
    step: &IndexerJobSaveStep,
    db: &mut LibraryDb,
) -> (count: u64)
    requires
        old(db).wf(),
        old(db)@.next_id + step@.walked.len() <= i64::MAX,
    ensures
        final(db).wf(),
        final(db)@ == (DbV {
            file_paths: spec_apply_saves(
                old(db)@.file_paths,
                old(db)@.next_id,
                location_id,
                step@.walked,
            ).0,
            next_id: spec_apply_saves(
                old(db)@.file_paths,
                old(db)@.next_id,
                location_id,
                step@.walked,
            ).1,
            ..old(db)@
        }),
        final(db)@.next_id <= old(db)@.next_id + step@.walked.len(),
        count == step@.walked.len(),
{
    let ghost sv = step@.walked;
    let n: usize = step.walked.len();
    let mut i: usize = 0;
    while i < n
        invariant
            i <= n,
            n == step.walked@.len(),
            sv == step@.walked,
            db.wf(),
            db@.file_paths == spec_apply_saves(
                old(db)@.file_paths,
                old(db)@.next_id,
                location_id,
                sv.take(i as int),
            ).0,
            db@.next_id == spec_apply_saves(
                old(db)@.file_paths,
                old(db)@.next_id,
                location_id,
                sv.take(i as int),
            ).1,
            db@.next_id <= old(db)@.next_id + i,
            old(db)@.next_id + n <= i64::MAX,
            db@.nodes == old(db)@.nodes,
            db@.locations == old(db)@.locations,
            db@.indexer_rules == old(db)@.indexer_rules,
            db@.objects == old(db)@.objects,
            db@.keys == old(db)@.keys,
        decreases n - i,
    {
        let e = &step.walked[i];
        proof {
            assert(sv[i as int] == step.walked@[i as int]@);
            assert(sv.take(i as int + 1).drop_last() =~= sv.take(i as int));
            assert(sv.take(i as int + 1).last() == sv[i as int]);
        }
        let ghost prev_paths = db@.file_paths;
        let ghost prev_next = db@.next_id;
        db.upsert_file_path(location_id, e.path.as_str(), e.is_dir, e.mtime);
        proof {
            assert(db@.file_paths == spec_upsert_one(
                prev_paths,
                prev_next,
                location_id,
                sv[i as int],
            ).0);
            assert(db@.next_id == spec_upsert_one(
                prev_paths,
                prev_next,
                location_id,
                sv[i as int],
            ).1);
        }
        i = i + 1;
    }
    proof {
        assert(sv.take(n as int) =~= sv);
    }
    proof {
        assert(db@ =~= DbV {
            file_paths: spec_apply_saves(
                old(db)@.file_paths,
                old(db)@.next_id,
                location_id,
                sv,
            ).0,
            next_id: spec_apply_saves(
                old(db)@.file_paths,
                old(db)@.next_id,
                location_id,
                sv,
            ).1,
            ..old(db)@
        });
    }
    n as u64
}


/// Reconciles one directory level of a location with its recorded paths.
///
/// The driver supplies the listing it read at the walk target (the location
/// root, or `sub_path` when non-empty), the probed kind of the sub-path and
/// the target's own modification time. The scan compiles the location's
/// rules, validates the sub-path, computes the delta, deletes removed paths
/// first, saves discovered entries in batches of `BATCH_SIZE` in walk
/// order, and finally queues exactly one reclamation request. Returns how
/// many paths were saved.
pub fn shallow(
    location: &LocationRecord,
    sub_path: &str,
    sub_path_kind: &FsNodeKind,
    listing: &Vec<DiskEntry>,
    target_mtime: u64,
    library: &mut Library,
) -> (r: Result<u64, IndexerError>)
    requires
        old(library).wf(),
        old(library).db@.next_id + listing@.len() + 2 <= i64::MAX,
    ensures
        final(library).wf(),
        final(library).id == old(library).id,
        final(library).local_id == old(library).local_id,
        final(library).config == old(library).config,
        final(library).key_manager == old(library).key_manager,
        final(library).node_local_id == old(library).node_local_id,
        ({
            let rules = spec_rules_for(old(library).db@.indexer_rules, location@.rule_ids);
            let compiled_ok = spec_rules_compile(rules);
            let sub_ok = sub_path@.len() == 0 || spec_sub_path_in_location(
                location@.path,
                sub_path@,
            );
            let dir_ok = sub_path@.len() == 0 || *sub_path_kind == FsNodeKind::Dir;
            match r {
                Ok(count) => compiled_ok && sub_ok && dir_ok && ({
                    let target = if sub_path@.len() == 0 {
                        location@.path
                    } else {
                        sub_path@
                    };
                    let add_root = sub_path@.len() > 0 && spec_find(
                        old(library).db@.file_paths,
                        file_path_at(location@.id, sub_path@),
                    ) is None;
                    let ev = listing@.map_values(|e: DiskEntry| e@);
                    let recorded = old(library).db@.file_paths.filter(
                        file_path_child_of(location@.id, target),
                    );
                    let discovered = spec_discovered(target, ev, spec_compiled(rules), recorded);
                    let walked = if add_root {
                        seq![
                            (WalkedEntryV { path: target, is_dir: true, mtime: target_mtime }),
                        ] + discovered
                    } else {
                        discovered
                    };
                    let removed = old(library).db@.file_paths.filter(
                        file_path_id_not_in(spec_to_remove(target, ev, recorded)),
                    );
                    let applied = spec_apply_saves(
                        removed,
                        old(library).db@.next_id,
                        location@.id,
                        walked,
                    );
                    &&& final(library).db@ == (DbV {
                        file_paths: applied.0,
                        next_id: applied.1,
                        ..old(library).db@
                    })
                    &&& final(library).orphan_remover.pending
                    &&& count == walked.len()
                }),
                Err(e) => *final(library) == *old(library) && (match e {
                    IndexerError::RuleCompile(_) => !compiled_ok,
                    IndexerError::SubPathNotInLocation(_) => compiled_ok && !sub_ok,
                    IndexerError::SubPathNotADirectory(_) => compiled_ok && sub_ok && !dir_ok,
                }),
            }
        }),
{
    let rule_records = library.db.rules_for_location(&location.rule_ids);
    let rules = match compile_indexer_rules(&rule_records) {
        Ok(rules) => rules,
        Err(e) => {
            return Err(e);
        },
    };
    let ghost rulesv = rules@.map_values(|x: IndexerRule| x@);
    proof {
        assert(rulesv =~= spec_compiled(
            spec_rules_for(old(library).db@.indexer_rules, location@.rule_ids),
        ));
    }
    let use_sub_path = sub_path.unicode_len() > 0;
    let mut add_root: bool = false;
    if use_sub_path {
        match ensure_sub_path_is_in_location(location.path.as_str(), sub_path) {
            Ok(()) => {},
            Err(e) => {
                return Err(e);
            },
        }
        match ensure_sub_path_is_directory(sub_path, sub_path_kind) {
            Ok(()) => {},
            Err(e) => {
                return Err(e);
            },
        }
        add_root = !library.db.file_path_exists(location.id, sub_path);
    }
    let target: &str = if use_sub_path {
        sub_path
    } else {
        location.path.as_str()
    };
    let recorded = library.db.recorded_children(location.id, target);
    let wr = walk_single_dir(target, target_mtime, listing, &rules, &recorded, add_root);
    let ghost walkedv = wr.walked@.map_values(|w: WalkedEntry| w@);
    proof {
        lemma_discovered_len(
            target@,
            listing@.map_values(|e: DiskEntry| e@),
            rulesv,
            recorded@.map_values(|p: FilePathRecord| p@),
        );
        assert(walkedv.len() <= listing@.len() + 1);
    }
    library.db.remove_file_paths(&wr.to_remove);
    let ghost removed_paths = library.db@.file_paths;
    let ghost start_next = library.db@.next_id;
    let steps = batch_steps(&wr.walked);
    let ghost mapsteps = steps@.map_values(step_walked_of());
    proof {
        assert(mapsteps.flatten() == walkedv);
    }
    let mut total_paths: u64 = 0;
    let m: usize = steps.len();
    let mut k: usize = 0;
    while k < m
        invariant
            k <= m,
            m == steps@.len(),
            mapsteps == steps@.map_values(step_walked_of()),
            mapsteps.flatten() == walkedv,
            library.db.wf(),
            library.id == old(library).id,
            library.local_id == old(library).local_id,
            library.config == old(library).config,
            library.key_manager == old(library).key_manager,
            library.node_local_id == old(library).node_local_id,
            library.orphan_remover == old(library).orphan_remover,
            library.db@.file_paths == spec_apply_saves(
                removed_paths,
                start_next,
                location@.id,
                mapsteps.take(k as int).flatten(),
            ).0,
            library.db@.next_id == spec_apply_saves(
                removed_paths,
                start_next,
                location@.id,
                mapsteps.take(k as int).flatten(),
            ).1,
            library.db@.next_id <= start_next + mapsteps.take(k as int).flatten().len(),
            mapsteps.take(k as int).flatten().len() <= walkedv.len(),
            start_next + walkedv.len() + 1 <= i64::MAX,
            total_paths == mapsteps.take(k as int).flatten().len(),
            library.db@.nodes == old(library).db@.nodes,
            library.db@.locations == old(library).db@.locations,
            library.db@.indexer_rules == old(library).db@.indexer_rules,
            library.db@.objects == old(library).db@.objects,
            library.db@.keys == old(library).db@.keys,
        decreases m - k,
    {
        proof {
            assert(mapsteps.take(k as int + 1).drop_last() =~= mapsteps.take(k as int));
            assert(mapsteps.take(k as int + 1) =~= mapsteps.take(k as int).push(
                mapsteps[k as int],
            ));
            mapsteps.take(k as int).lemma_flatten_push(mapsteps[k as int]);
            assert(mapsteps =~= mapsteps.take(k as int + 1) + mapsteps.subrange(
                k as int + 1,
                m as int,
            ));
            vstd::seq_lib::lemma_flatten_concat(
                mapsteps.take(k as int + 1),
                mapsteps.subrange(k as int + 1, m as int),
            );
            assert(mapsteps.take(k as int + 1).flatten().len() <= walkedv.len());
            lemma_apply_saves_concat(
                removed_paths,
                start_next,
                location@.id,
                mapsteps.take(k as int).flatten(),
                mapsteps[k as int],
            );
            assert(steps@[k as int]@.walked == mapsteps[k as int]);
        }
        let c = execute_indexer_save_step(location.id, &steps[k], &mut library.db);
        total_paths = total_paths + c;
        k = k + 1;
    }
    proof {
        assert(mapsteps.take(m as int) =~= mapsteps);
    }
    library.orphan_remover.invoke();
    Ok(total_paths)
}


/// Joining with the same directory is injective in the name.
pub proof fn lemma_join_injective(dir: Seq<char>, a: Seq<char>, b: Seq<char>)
    requires
        spec_join_path(dir, a) == spec_join_path(dir, b),
    ensures
        a == b,
{
    let ja = spec_join_path(dir, a);
    let jb = spec_join_path(dir, b);
    assert(ja.len() == dir.len() + 1 + a.len());
    assert(jb.len() == dir.len() + 1 + b.len());
    assert(a.len() == b.len());
    assert forall|i: int| 0 <= i < a.len() implies a[i] == b[i] by {
        assert(ja[dir.len() + 1 + i] == a[i]);
        assert(jb[dir.len() + 1 + i] == b[i]);
    }
    assert(a =~= b);
}

/// Whether some walked entry carries this path.
pub open spec fn spec_walked_has_path(w: Seq<WalkedEntryV>, path: Seq<char>) -> bool {
    exists|k: int| 0 <= k < w.len() && (#[trigger] w[k]).path == path
}

/// What one save step does besides its own path: every record of another
/// path is untouched, and afterwards a record of the saved path with the
/// saved metadata exists.
pub proof fn lemma_upsert_step(paths: Seq<FilePathV>, next_id: i64, location_id: i64, e: WalkedEntryV)
    ensures
        ({
            let r = spec_upsert_one(paths, next_id, location_id, e).0;
            &&& paths.len() <= r.len() <= paths.len() + 1
            &&& (forall|i: int|
                0 <= i < paths.len() && (#[trigger] paths[i]).path != e.path ==> r[i] == paths[i])
            &&& (exists|j: int|
                0 <= j < r.len() && (#[trigger] r[j]).location_id == location_id && r[j].path
                    == e.path && r[j].is_dir == e.is_dir && r[j].mtime == e.mtime)
            &&& (forall|i: int|
                0 <= i < r.len() ==> ((i < paths.len() && ((#[trigger] r[i]) == paths[i] || (
                r[i].path == e.path && r[i].location_id == location_id))) || (i >= paths.len()
                    && r[i].path == e.path && r[i].location_id == location_id)))
        }),
{
    lemma_spec_find(paths, file_path_at(location_id, e.path));
    let r = spec_upsert_one(paths, next_id, location_id, e).0;
    match spec_find(paths, file_path_at(location_id, e.path)) {
        Some(i) => {
            assert(file_path_at(location_id, e.path)(paths[i]));
            assert(r[i].location_id == location_id && r[i].path == e.path && r[i].is_dir
                == e.is_dir && r[i].mtime == e.mtime);
        },
        None => {
            let j = r.len() - 1;
            assert(r[j].location_id == location_id && r[j].path == e.path && r[j].is_dir
                == e.is_dir && r[j].mtime == e.mtime);
        },
    }
}

/// Whether a record of this location, path and metadata exists.
pub open spec fn spec_has_record(
    paths: Seq<FilePathV>,
    location_id: i64,
    e: WalkedEntryV,
) -> bool {
    exists|j: int|
        0 <= j < paths.len() && (#[trigger] paths[j]).location_id == location_id && paths[j].path
            == e.path && paths[j].is_dir == e.is_dir && paths[j].mtime == e.mtime
}

/// What saving a sequence of entries with pairwise-distinct paths does:
/// records of untouched paths keep their position and value, every saved
/// entry ends up recorded with its metadata, and every record of the result
/// either keeps an input record's location and path or carries a saved
/// path.
pub proof fn lemma_apply_saves_props(
    paths: Seq<FilePathV>,
    next_id: i64,
    location_id: i64,
    w: Seq<WalkedEntryV>,
)
    requires
        forall|k1: int, k2: int|
            0 <= k1 < k2 < w.len() ==> (#[trigger] w[k1]).path != (#[trigger] w[k2]).path,
    ensures
        ({
            let r = spec_apply_saves(paths, next_id, location_id, w).0;
            &&& paths.len() <= r.len()
            &&& (forall|i: int|
                0 <= i < paths.len() && !spec_walked_has_path(w, (#[trigger] paths[i]).path)
                    ==> r[i] == paths[i])
            &&& (forall|k: int|
                0 <= k < w.len() ==> spec_has_record(r, location_id, #[trigger] w[k]))
            &&& (forall|i: int|
                0 <= i < r.len() ==> ((exists|j: int|
                    0 <= j < paths.len() && (#[trigger] r[i]).path == (#[trigger] paths[j]).path
                        && r[i].location_id == paths[j].location_id) || (spec_walked_has_path(
                    w,
                    r[i].path,
                ) && r[i].location_id == location_id)))
        }),
    decreases w.len(),
{
    let r = spec_apply_saves(paths, next_id, location_id, w).0;
    if w.len() == 0 {
    } else {
        let w0 = w.drop_last();
        let e = w.last();
        lemma_apply_saves_props(paths, next_id, location_id, w0);
        let prev = spec_apply_saves(paths, next_id, location_id, w0);
        lemma_upsert_step(prev.0, prev.1, location_id, e);
        assert forall|i: int|
            0 <= i < paths.len() && !spec_walked_has_path(w, (#[trigger] paths[i]).path) implies r[i]
            == paths[i] by {
            assert(!spec_walked_has_path(w0, paths[i].path)) by {
                if spec_walked_has_path(w0, paths[i].path) {
                    let k = choose|k: int| 0 <= k < w0.len() && (#[trigger] w0[k]).path == paths[i].path;
                    assert(w[k].path == paths[i].path);
                }
            }
            assert(prev.0[i] == paths[i]);
            assert(paths[i].path != e.path) by {
                assert(w[w.len() - 1] == e);
            }
        }
        assert forall|k: int| 0 <= k < w.len() implies spec_has_record(
            r,
            location_id,
            #[trigger] w[k],
        ) by {
            if k == w.len() - 1 {
                assert(w[k] == e);
            } else {
                assert(w0[k] == w[k]);
                assert(spec_has_record(prev.0, location_id, w0[k]));
                let j = choose|j: int|
                    0 <= j < prev.0.len() && (#[trigger] prev.0[j]).location_id == location_id
                        && prev.0[j].path == w0[k].path && prev.0[j].is_dir == w0[k].is_dir
                        && prev.0[j].mtime == w0[k].mtime;
                assert(w0[k].path != e.path) by {
                    assert(w[k].path != w[w.len() - 1].path);
                }
                assert(spec_upsert_one(prev.0, prev.1, location_id, e).0[j] == prev.0[j]) by {
                    if prev.0[j].path != e.path {
                    }
                }
            }
        }
        assert forall|i: int| 0 <= i < r.len() implies ((exists|j: int|
            0 <= j < paths.len() && (#[trigger] r[i]).path == (#[trigger] paths[j]).path
                && r[i].location_id == paths[j].location_id) || (spec_walked_has_path(w, r[i].path)
            && r[i].location_id == location_id)) by {
            if i < prev.0.len() && r[i] == prev.0[i] {
                if spec_walked_has_path(w0, prev.0[i].path) {
                    let k = choose|k: int|
                        0 <= k < w0.len() && (#[trigger] w0[k]).path == prev.0[i].path;
                    assert(w[k].path == r[i].path);
                }
            } else {
                assert(r[i].path == e.path && r[i].location_id == location_id);
                assert(w[w.len() - 1].path == e.path);
            }
        }
    }
}

/// A walk whose every readable, accepted entry is already recorded with its
/// current metadata discovers nothing.
pub proof fn lemma_discovered_empty(
    target: Seq<char>,
    entries: Seq<DiskEntryV>,
    rules: Seq<RuleFilterV>,
    recorded: Seq<FilePathV>,
)
    requires
        forall|k: int|
            0 <= k < entries.len() && (#[trigger] entries[k]).readable && spec_entry_accepted(
                rules,
                entries[k].name,
            ) ==> spec_recorded_same(
                recorded,
                spec_join_path(target, entries[k].name),
                entries[k].is_dir,
                entries[k].mtime,
            ),
    ensures
        spec_discovered(target, entries, rules, recorded) == Seq::<WalkedEntryV>::empty(),
    decreases entries.len(),
{
    if entries.len() > 0 {
        assert(entries[entries.len() - 1] == entries.last());
        assert forall|k: int|
            0 <= k < entries.drop_last().len() && (#[trigger] entries.drop_last()[k]).readable
                && spec_entry_accepted(rules, entries.drop_last()[k].name) implies
            spec_recorded_same(
            recorded,
            spec_join_path(target, entries.drop_last()[k].name),
            entries.drop_last()[k].is_dir,
            entries.drop_last()[k].mtime,
        ) by {
            assert(entries.drop_last()[k] == entries[k]);
        }
        lemma_discovered_empty(target, entries.drop_last(), rules, recorded);
    }
}

/// Every discovered entry is the join of some readable, accepted,
/// not-yet-recorded listing entry, with that entry's metadata.
pub proof fn lemma_discovered_elements(
    target: Seq<char>,
    entries: Seq<DiskEntryV>,
    rules: Seq<RuleFilterV>,
    recorded: Seq<FilePathV>,
)
    ensures
        ({
            let d = spec_discovered(target, entries, rules, recorded);
            forall|idx: int|
                0 <= idx < d.len() ==> exists|k: int|
                    0 <= k < entries.len() && (#[trigger] d[idx]).path == spec_join_path(
                        target,
                        (#[trigger] entries[k]).name,
                    ) && entries[k].readable && spec_entry_accepted(rules, entries[k].name)
                        && !spec_recorded_same(
                        recorded,
                        spec_join_path(target, entries[k].name),
                        entries[k].is_dir,
                        entries[k].mtime,
                    ) && d[idx].is_dir == entries[k].is_dir && d[idx].mtime == entries[k].mtime
        }),
    decreases entries.len(),
{
    let d = spec_discovered(target, entries, rules, recorded);
    if entries.len() > 0 {
        let e0 = entries.drop_last();
        lemma_discovered_elements(target, e0, rules, recorded);
        let d0 = spec_discovered(target, e0, rules, recorded);
        assert forall|idx: int| 0 <= idx < d.len() implies exists|k: int|
            0 <= k < entries.len() && (#[trigger] d[idx]).path == spec_join_path(
                target,
                (#[trigger] entries[k]).name,
            ) && entries[k].readable && spec_entry_accepted(rules, entries[k].name)
                && !spec_recorded_same(
                recorded,
                spec_join_path(target, entries[k].name),
                entries[k].is_dir,
                entries[k].mtime,
            ) && d[idx].is_dir == entries[k].is_dir && d[idx].mtime == entries[k].mtime by {
            if idx < d0.len() {
                let k = choose|k: int|
                    0 <= k < e0.len() && (#[trigger] d0[idx]).path == spec_join_path(
                        target,
                        (#[trigger] e0[k]).name,
                    ) && e0[k].readable && spec_entry_accepted(rules, e0[k].name)
                        && !spec_recorded_same(
                        recorded,
                        spec_join_path(target, e0[k].name),
                        e0[k].is_dir,
                        e0[k].mtime,
                    ) && d0[idx].is_dir == e0[k].is_dir && d0[idx].mtime == e0[k].mtime;
                assert(entries[k] == e0[k]);
                assert(d[idx] == d0[idx]);
            } else {
                let k = entries.len() - 1;
                assert(entries[k] == entries.last());
                assert(d[idx].path == spec_join_path(target, entries[k].name));
            }
        }
    }
}

/// A readable, accepted, not-yet-recorded listing entry is discovered.
pub proof fn lemma_discovered_contains(
    target: Seq<char>,
    entries: Seq<DiskEntryV>,
    rules: Seq<RuleFilterV>,
    recorded: Seq<FilePathV>,
    k: int,
)
    requires
        0 <= k < entries.len(),
        entries[k].readable,
        spec_entry_accepted(rules, entries[k].name),
        !spec_recorded_same(
            recorded,
            spec_join_path(target, entries[k].name),
            entries[k].is_dir,
            entries[k].mtime,
        ),
    ensures
        spec_walked_has_path(
            spec_discovered(target, entries, rules, recorded),
            spec_join_path(target, entries[k].name),
        ),
        spec_has_walked_meta(
            spec_discovered(target, entries, rules, recorded),
            spec_join_path(target, entries[k].name),
            entries[k].is_dir,
            entries[k].mtime,
        ),
    decreases entries.len(),
{
    let d = spec_discovered(target, entries, rules, recorded);
    if k == entries.len() - 1 {
        assert(entries[k] == entries.last());
        assert(d[d.len() - 1].path == spec_join_path(target, entries[k].name));
    } else {
        let e0 = entries.drop_last();
        assert(e0[k] == entries[k]);
        lemma_discovered_contains(target, e0, rules, recorded, k);
        let d0 = spec_discovered(target, e0, rules, recorded);
        let idx = choose|idx: int|
            0 <= idx < d0.len() && (#[trigger] d0[idx]).path == spec_join_path(
                target,
                entries[k].name,
            ) && d0[idx].is_dir == entries[k].is_dir && d0[idx].mtime == entries[k].mtime;
        assert(d[idx] == d0[idx]);
    }
}

/// Whether some walked entry carries this path with this metadata.
pub open spec fn spec_has_walked_meta(
    w: Seq<WalkedEntryV>,
    path: Seq<char>,
    is_dir: bool,
    mtime: u64,
) -> bool {
    exists|idx: int|
        0 <= idx < w.len() && (#[trigger] w[idx]).path == path && w[idx].is_dir == is_dir
            && w[idx].mtime == mtime
}

/// Discovered entries of a well-formed listing have pairwise-distinct
/// paths.
pub proof fn lemma_discovered_distinct(
    target: Seq<char>,
    entries: Seq<DiskEntryV>,
    rules: Seq<RuleFilterV>,
    recorded: Seq<FilePathV>,
)
    requires
        spec_listing_wf(entries),
    ensures
        ({
            let d = spec_discovered(target, entries, rules, recorded);
            forall|i: int, j: int|
                0 <= i < j < d.len() ==> (#[trigger] d[i]).path != (#[trigger] d[j]).path
        }),
    decreases entries.len(),
{
    let d = spec_discovered(target, entries, rules, recorded);
    if entries.len() > 0 {
        let e0 = entries.drop_last();
        assert(spec_listing_wf(e0)) by {
            assert forall|i: int| 0 <= i < e0.len() implies (#[trigger] e0[i]).name.len() > 0
                && !e0[i].name.contains('/') by {
                assert(e0[i] == entries[i]);
            }
            assert forall|i: int, j: int| 0 <= i < j < e0.len() implies (#[trigger] e0[i]).name
                != (#[trigger] e0[j]).name by {
                assert(e0[i] == entries[i] && e0[j] == entries[j]);
            }
        }
        lemma_discovered_distinct(target, e0, rules, recorded);
        lemma_discovered_elements(target, e0, rules, recorded);
        let d0 = spec_discovered(target, e0, rules, recorded);
        assert forall|i: int, j: int| 0 <= i < j < d.len() implies (#[trigger] d[i]).path != (
        #[trigger] d[j]).path by {
            if j < d0.len() {
                assert(d[i] == d0[i] && d[j] == d0[j]);
            } else if j == d0.len() && d.len() > d0.len() {
                assert(d[i] == d0[i]);
                assert(d[j].path == spec_join_path(target, entries.last().name));
                let k = choose|k: int|
                    0 <= k < e0.len() && (#[trigger] d0[i]).path == spec_join_path(
                        target,
                        (#[trigger] e0[k]).name,
                    ) && e0[k].readable && spec_entry_accepted(rules, e0[k].name)
                        && !spec_recorded_same(
                        recorded,
                        spec_join_path(target, e0[k].name),
                        e0[k].is_dir,
                        e0[k].mtime,
                    ) && d0[i].is_dir == e0[k].is_dir && d0[i].mtime == e0[k].mtime;
                if d[i].path == d[j].path {
                    lemma_join_injective(target, e0[k].name, entries.last().name);
                    assert(entries[k].name == entries[entries.len() - 1].name);
                }
            }
        }
    }
}


/// Idempotence of the shallow scan: after one scan's removals and saves are
/// applied, a second scan of the same listing — no filesystem change in
/// between — discovers nothing and removes nothing, and when the first scan
/// added the walk root, the second finds it recorded.
#[verifier::rlimit(100)]
pub proof fn lemma_shallow_scan_idempotent(
    target: Seq<char>,
    entries: Seq<DiskEntryV>,
    rules: Seq<RuleFilterV>,
    paths0: Seq<FilePathV>,
    next0: i64,
    location_id: i64,
    add_root: bool,
    target_mtime: u64,
)
    requires
        spec_listing_wf(entries),
        forall|i: int, j: int|
            0 <= i < j < paths0.len() ==> (#[trigger] paths0[i]).id != (#[trigger] paths0[j]).id,
    ensures
        ({
            let recorded0 = paths0.filter(file_path_child_of(location_id, target));
            let discovered0 = spec_discovered(target, entries, rules, recorded0);
            let walked0 = if add_root {
                seq![
                    (WalkedEntryV { path: target, is_dir: true, mtime: target_mtime }),
                ] + discovered0
            } else {
                discovered0
            };
            let rm = spec_to_remove(target, entries, recorded0);
            let removed = paths0.filter(file_path_id_not_in(rm));
            let paths1 = spec_apply_saves(removed, next0, location_id, walked0).0;
            let recorded1 = paths1.filter(file_path_child_of(location_id, target));
            &&& spec_discovered(target, entries, rules, recorded1) == Seq::<WalkedEntryV>::empty()
            &&& spec_to_remove(target, entries, recorded1) == Seq::<i64>::empty()
            &&& (add_root ==> spec_find(paths1, file_path_at(location_id, target)) is Some)
        }),
{
    broadcast use vstd::prelude::Seq::lemma_filter_pred;
    broadcast use vstd::prelude::Seq::lemma_filter_contains;

    let child = file_path_child_of(location_id, target);
    let gone = record_gone(target, entries);
    let recorded0 = paths0.filter(child);
    let discovered0 = spec_discovered(target, entries, rules, recorded0);
    let walked0 = if add_root {
        seq![(WalkedEntryV { path: target, is_dir: true, mtime: target_mtime })] + discovered0
    } else {
        discovered0
    };
    let rm = spec_to_remove(target, entries, recorded0);
    let removed = paths0.filter(file_path_id_not_in(rm));
    let paths1 = spec_apply_saves(removed, next0, location_id, walked0).0;
    let recorded1 = paths1.filter(child);

    lemma_discovered_distinct(target, entries, rules, recorded0);
    lemma_discovered_elements(target, entries, rules, recorded0);
    crate::vecs::lemma_filter_subset(paths0, child);
    crate::vecs::lemma_filter_subset(paths0, file_path_id_not_in(rm));
    crate::vecs::lemma_filter_subset(recorded0, gone);
    crate::vecs::lemma_filter_subset(paths1, child);

    // A discovered path is a join of a listing entry's name, hence longer
    // than the target; the root path is the target itself.
    assert forall|k1: int, k2: int| 0 <= k1 < k2 < walked0.len() implies (
    #[trigger] walked0[k1]).path != (#[trigger] walked0[k2]).path by {
        if add_root && k1 == 0 {
            assert(walked0[0].path == target);
            assert(walked0[k2] == discovered0[k2 - 1]);
            let k = choose|k: int|
                0 <= k < entries.len() && (#[trigger] discovered0[k2 - 1]).path == spec_join_path(
                    target,
                    (#[trigger] entries[k]).name,
                ) && entries[k].readable && spec_entry_accepted(rules, entries[k].name)
                    && !spec_recorded_same(
                    recorded0,
                    spec_join_path(target, entries[k].name),
                    entries[k].is_dir,
                    entries[k].mtime,
                ) && discovered0[k2 - 1].is_dir == entries[k].is_dir && discovered0[k2 - 1].mtime
                    == entries[k].mtime;
            assert(walked0[k2].path.len() > target.len());
        } else {
            let i1: int = if add_root { k1 - 1 } else { k1 };
            let i2: int = if add_root { k2 - 1 } else { k2 };
            assert(walked0[k1] == discovered0[i1]);
            assert(walked0[k2] == discovered0[i2]);
        }
    }
    lemma_apply_saves_props(removed, next0, location_id, walked0);

    // A walked path is never the path of a record that the first scan kept
    // because it was already up to date.
    assert forall|k: int|
        0 <= k < entries.len() && (#[trigger] entries[k]).readable && spec_entry_accepted(
            rules,
            entries[k].name,
        ) implies spec_recorded_same(
        recorded1,
        spec_join_path(target, entries[k].name),
        entries[k].is_dir,
        entries[k].mtime,
    ) by {
        let p = spec_join_path(target, entries[k].name);
        lemma_join_direct_child(target, entries[k].name);
        if spec_recorded_same(recorded0, p, entries[k].is_dir, entries[k].mtime) {
            let ridx = choose|i: int|
                0 <= i < recorded0.len() && (#[trigger] recorded0[i]).path == p
                    && recorded0[i].is_dir == entries[k].is_dir && recorded0[i].mtime
                    == entries[k].mtime;
            let rec = recorded0[ridx];
            assert(child(rec));
            assert(paths0.contains(rec));
            let pidx = choose|i: int| 0 <= i < paths0.len() && paths0[i] == rec;
            assert(spec_on_disk(target, entries, rec.path)) by {
                assert(spec_join_path(target, entries[k].name) == rec.path);
            }
            assert(!rm.contains(rec.id)) by {
                if rm.contains(rec.id) {
                    let j = choose|j: int| 0 <= j < rm.len() && rm[j] == rec.id;
                    let g = recorded0.filter(gone)[j];
                    assert(g.id == rec.id);
                    assert(gone(g));
                    assert(recorded0.contains(g));
                    let gi = choose|i: int| 0 <= i < recorded0.len() && recorded0[i] == g;
                    assert(paths0.contains(g));
                    let gpi = choose|i: int| 0 <= i < paths0.len() && paths0[i] == g;
                    assert(g == rec) by {
                        if gpi != pidx {
                            assert(paths0[gpi].id != paths0[pidx].id);
                        }
                    }
                }
            }
            assert(file_path_id_not_in(rm)(rec));
            assert(removed.contains(rec));
            let remidx = choose|i: int| 0 <= i < removed.len() && removed[i] == rec;
            assert(!spec_walked_has_path(walked0, rec.path)) by {
                if spec_walked_has_path(walked0, rec.path) {
                    let wk = choose|wk: int|
                        0 <= wk < walked0.len() && (#[trigger] walked0[wk]).path == rec.path;
                    if add_root && wk == 0 {
                        assert(target == rec.path);
                        assert(rec.path.len() > target.len());
                    } else {
                        let di: int = if add_root { wk - 1 } else { wk };
                        assert(walked0[wk] == discovered0[di]);
                        let k2 = choose|k2: int|
                            0 <= k2 < entries.len() && (#[trigger] discovered0[di]).path
                                == spec_join_path(target, (#[trigger] entries[k2]).name)
                                && entries[k2].readable && spec_entry_accepted(
                                rules,
                                entries[k2].name,
                            ) && !spec_recorded_same(
                                recorded0,
                                spec_join_path(target, entries[k2].name),
                                entries[k2].is_dir,
                                entries[k2].mtime,
                            ) && discovered0[di].is_dir == entries[k2].is_dir
                                && discovered0[di].mtime == entries[k2].mtime;
                        lemma_join_injective(target, entries[k2].name, entries[k].name);
                        assert(k2 == k) by {
                            if k2 < k {
                                assert(entries[k2].name != entries[k].name);
                            }
                            if k < k2 {
                                assert(entries[k].name != entries[k2].name);
                            }
                        }
                    }
                }
            }
            assert(paths1[remidx] == rec);
            assert(paths1.contains(rec)) by {
                assert(paths1[remidx] == rec);
            }
            assert(recorded1.contains(rec)) by {
                let i = choose|i: int| 0 <= i < paths1.len() && paths1[i] == rec;
                assert(child(paths1[i]));
            }
            let fi = choose|i: int| 0 <= i < recorded1.len() && recorded1[i] == rec;
            assert(recorded1[fi].path == p);
        } else {
            lemma_discovered_contains(target, entries, rules, recorded0, k);
            let idx = choose|idx: int|
                0 <= idx < discovered0.len() && (#[trigger] discovered0[idx]).path == p
                    && discovered0[idx].is_dir == entries[k].is_dir && discovered0[idx].mtime
                    == entries[k].mtime;
            let widx: int = if add_root {
                idx + 1
            } else {
                idx
            };
            assert(walked0[widx] == discovered0[idx]);
            assert(spec_has_record(paths1, location_id, walked0[widx]));
            let j = choose|j: int|
                0 <= j < paths1.len() && (#[trigger] paths1[j]).location_id == location_id
                    && paths1[j].path == walked0[widx].path && paths1[j].is_dir
                    == walked0[widx].is_dir && paths1[j].mtime == walked0[widx].mtime;
            assert(child(paths1[j]));
            assert(recorded1.contains(paths1[j]));
            let fi = choose|i: int| 0 <= i < recorded1.len() && recorded1[i] == paths1[j];
            assert(recorded1[fi].path == p);
        }
    }
    lemma_discovered_empty(target, entries, rules, recorded1);

    // Every record a second scan would see is still on disk.
    assert forall|i: int| 0 <= i < recorded1.len() implies !gone(#[trigger] recorded1[i]) by {
        let x = recorded1[i];
        assert(child(x));
        assert(paths1.contains(x));
        let xi = choose|xi: int| 0 <= xi < paths1.len() && paths1[xi] == x;
        if spec_walked_has_path(walked0, x.path) && x.location_id == location_id {
            let wk = choose|wk: int|
                0 <= wk < walked0.len() && (#[trigger] walked0[wk]).path == x.path;
            if add_root && wk == 0 {
                assert(x.path == target);
                assert(spec_is_direct_child(target, x.path));
                assert(x.path.len() > target.len() + 1);
            } else {
                let di: int = if add_root { wk - 1 } else { wk };
                assert(walked0[wk] == discovered0[di]);
                let k2 = choose|k2: int|
                    0 <= k2 < entries.len() && (#[trigger] discovered0[di]).path == spec_join_path(
                        target,
                        (#[trigger] entries[k2]).name,
                    ) && entries[k2].readable && spec_entry_accepted(rules, entries[k2].name)
                        && !spec_recorded_same(
                        recorded0,
                        spec_join_path(target, entries[k2].name),
                        entries[k2].is_dir,
                        entries[k2].mtime,
                    ) && discovered0[di].is_dir == entries[k2].is_dir && discovered0[di].mtime
                        == entries[k2].mtime;
                assert(spec_on_disk(target, entries, x.path)) by {
                    assert(spec_join_path(target, entries[k2].name) == x.path);
                }
            }
        } else {
            let j = choose|j: int|
                0 <= j < removed.len() && x.path == (#[trigger] removed[j]).path && x.location_id
                    == removed[j].location_id;
            let y = removed[j];
            assert(file_path_id_not_in(rm)(y));
            assert(paths0.contains(y));
            let ypi = choose|yi: int| 0 <= yi < paths0.len() && paths0[yi] == y;
            assert(child(y)) by {
                assert(y.path == x.path && y.location_id == x.location_id);
            }
            assert(recorded0.contains(y));
            assert(!gone(y)) by {
                if gone(y) {
                    let ygi = choose|yi: int| 0 <= yi < recorded0.len() && recorded0[yi] == y;
                    assert(recorded0.filter(gone).contains(y));
                    let fgi = choose|fi: int|
                        0 <= fi < recorded0.filter(gone).len() && recorded0.filter(gone)[fi] == y;
                    assert(rm[fgi] == y.id);
                    assert(rm.contains(y.id));
                }
            }
        }
    }
    assert(recorded1.filter(gone) =~= Seq::<FilePathV>::empty()) by {
        crate::vecs::lemma_filter_subset(recorded1, gone);
        if recorded1.filter(gone).len() > 0 {
            let z = recorded1.filter(gone)[0];
            assert(gone(z));
            assert(recorded1.contains(z));
            let zi = choose|zi: int| 0 <= zi < recorded1.len() && recorded1[zi] == z;
        }
    }
    assert(spec_to_remove(target, entries, recorded1) =~= Seq::<i64>::empty());

    if add_root {
        assert(walked0[0].path == target);
        assert(spec_has_record(paths1, location_id, walked0[0]));
        lemma_spec_find(paths1, file_path_at(location_id, target));
        if spec_find(paths1, file_path_at(location_id, target)) is None {
            let j = choose|j: int|
                0 <= j < paths1.len() && (#[trigger] paths1[j]).location_id == location_id
                    && paths1[j].path == walked0[0].path && paths1[j].is_dir == walked0[0].is_dir
                    && paths1[j].mtime == walked0[0].mtime;
            assert(file_path_at(location_id, target)(paths1[j]));
        }
    }
}

} // verus!

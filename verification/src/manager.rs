//! The library manager: the sole authority over which libraries are loaded.
//!
//! The registry is an ordered collection with at most one entry per library
//! id. The driver performs each file-system effect (persisting a config,
//! probing or removing a file) and hands the outcome back; every decision —
//! validation, discovery classification, assembly, registration, the
//! all-or-nothing deletion rule — is verified here.

use vstd::prelude::*;
use crate::config::LibraryConfig;
use crate::config::LibraryConfigWrapped;
use crate::config::library_name_is_valid;
use crate::config::spec_name_valid;
use crate::db::LibraryDb;
use crate::db::location_id_of;
use crate::db::location_node_is;
use crate::db::node_pub_is;
use crate::error::LibraryManagerError;
use crate::ids::config_file_name;
use crate::ids::db_file_name;
use crate::ids::parse_config_file_name;
use crate::ids::spec_config_file_name;
use crate::ids::spec_db_file_name;
use crate::ids::spec_parse_config_file_name;
use crate::ids::generate_library_id;
use crate::keys::KeyManager;
use crate::keys::seed_keymanager;
use crate::keys::spec_all_uuids_parse;
use crate::keys::spec_default_uuid;
use crate::keys::spec_stored_key_of;
use crate::ids::uuid_parse_of;
use crate::library::Library;
use crate::orphan::OrphanRemoverActor;
use crate::platform::Platform;
use crate::text::str_ends_with;
use crate::vecs::spec_find;
use crate::vecs::lemma_spec_find;
use crate::vecs::lemma_spec_find_is_first;
use crate::vecs::lemma_spec_find_none;

verus! {

/// What a filesystem probe of a library's sibling database file found.
#[derive(Debug)]
pub enum FileProbe {
    Exists,
    NotFound,
    IoError(String),
}

/// What startup discovery decides for one directory entry.
#[derive(Debug)]
pub enum StartupDecision {
    /// Not a library config file; ignored silently.
    NotALibraryFile,
    /// A config file whose name does not parse as a library id; skipped
    /// with a warning.
    SkipInvalidName,
    /// A config file whose sibling database file is missing; skipped with a
    /// warning, never an error.
    SkipMissingDatabase,
    /// Probing the sibling database file failed; startup fails hard.
    Fail(String),
    /// A loadable library with this id.
    Load(u128),
}

/// Classifies one entry of the libraries directory during startup
/// discovery: only a file named `<id>.sdlibrary` whose sibling database
/// exists is loaded; a malformed name or a missing database skips the entry
/// without failing startup, and only a probe error is fatal.
pub fn scan_library_dir_entry(file_name: &str, is_file: bool, db_probe: &FileProbe) -> (r:
    StartupDecision)
    ensures
        match r {
            StartupDecision::NotALibraryFile => !is_file || !".sdlibrary"@.is_suffix_of(
                file_name@,
            ),
            StartupDecision::SkipInvalidName => is_file && ".sdlibrary"@.is_suffix_of(file_name@)
                && spec_parse_config_file_name(file_name@) is None,
            StartupDecision::SkipMissingDatabase => is_file && spec_parse_config_file_name(
                file_name@,
            ) is Some && db_probe is NotFound,
            StartupDecision::Fail(m) => is_file && spec_parse_config_file_name(file_name@) is Some
                && (db_probe matches FileProbe::IoError(c) && m@ == c@),
            StartupDecision::Load(id) => is_file && spec_parse_config_file_name(file_name@)
                == Some(id) && db_probe is Exists,
        },
{
    if !is_file || !str_ends_with(file_name, ".sdlibrary") {
        return StartupDecision::NotALibraryFile;
    }
    match parse_config_file_name(file_name) {
        None => StartupDecision::SkipInvalidName,
        Some(id) => match db_probe {
            FileProbe::Exists => StartupDecision::Load(id),
            FileProbe::NotFound => StartupDecision::SkipMissingDatabase,
            FileProbe::IoError(c) => StartupDecision::Fail(c.clone()),
        },
    }
}

/// Mathematical view of a database-file probe.
pub ghost enum FileProbeV {
    Exists,
    NotFound,
    IoError(Seq<char>),
}

impl View for FileProbe {
    type V = FileProbeV;

    open spec fn view(&self) -> FileProbeV {
        match self {
            FileProbe::Exists => FileProbeV::Exists,
            FileProbe::NotFound => FileProbeV::NotFound,
            FileProbe::IoError(c) => FileProbeV::IoError(c@),
        }
    }
}

/// One directory entry of the libraries directory, with the probe of its
/// sibling database file, as startup discovery sees it.
#[derive(Debug)]
pub struct StartupEntry {
    pub file_name: String,
    pub is_file: bool,
    pub db_probe: FileProbe,
}

/// Mathematical view of a startup entry.
pub ghost struct StartupEntryV {
    pub file_name: Seq<char>,
    pub is_file: bool,
    pub db_probe: FileProbeV,
}

impl View for StartupEntry {
    type V = StartupEntryV;

    open spec fn view(&self) -> StartupEntryV {
        StartupEntryV { file_name: self.file_name@, is_file: self.is_file, db_probe: self.db_probe@ }
    }
}

/// The library id a startup entry loads, if any: a config file whose
/// sibling database exists.
pub open spec fn spec_entry_load(e: StartupEntryV) -> Option<u128> {
    if e.is_file && e.db_probe is Exists {
        spec_parse_config_file_name(e.file_name)
    } else {
        None
    }
}

/// Whether a startup entry fails discovery hard: a config file whose
/// database probe errored.
pub open spec fn spec_entry_fails(e: StartupEntryV) -> bool {
    e.is_file && spec_parse_config_file_name(e.file_name) is Some && e.db_probe is IoError
}

/// The ids startup discovery loads, in directory order.
pub open spec fn spec_startup_loads(entries: Seq<StartupEntryV>) -> Seq<u128>
    decreases entries.len(),
{
    if entries.len() == 0 {
        Seq::empty()
    } else {
        let front = spec_startup_loads(entries.drop_last());
        match spec_entry_load(entries.last()) {
            Some(id) => front.push(id),
            None => front,
        }
    }
}

/// Plans startup discovery over the entries of the libraries directory: the
/// ids to load, in order, skipping malformed names and missing databases;
/// only a failed database probe fails the whole startup.
pub fn plan_startup(entries: &Vec<StartupEntry>) -> (r: Result<Vec<u128>, LibraryManagerError>)
    ensures
        r is Ok <==> (forall|k: int|
            0 <= k < entries@.len() ==> !spec_entry_fails((#[trigger] entries@[k])@)),
        r matches Ok(ids) ==> ids@ == spec_startup_loads(
            entries@.map_values(|e: StartupEntry| e@),
        ),
        r is Err ==> r->Err_0 is FileIO,
{
    let ghost ev = entries@.map_values(|e: StartupEntry| e@);
    let mut ids: Vec<u128> = Vec::new();
    let n: usize = entries.len();
    let mut i: usize = 0;
    while i < n
        invariant
            i <= n,
            n == entries@.len(),
            ev == entries@.map_values(|e: StartupEntry| e@),
            forall|k: int| 0 <= k < i ==> !spec_entry_fails((#[trigger] entries@[k])@),
            ids@ == spec_startup_loads(ev.take(i as int)),
        decreases n - i,
    {
        let e = &entries[i];
        proof {
            assert(ev[i as int] == entries@[i as int]@);
            assert(ev.take(i as int + 1).drop_last() =~= ev.take(i as int));
            assert(ev.take(i as int + 1).last() == ev[i as int]);
        }
        match scan_library_dir_entry(e.file_name.as_str(), e.is_file, &e.db_probe) {
            StartupDecision::Load(id) => {
                ids.push(id);
            },
            StartupDecision::Fail(cause) => {
                return Err(LibraryManagerError::FileIO(cause));
            },
            StartupDecision::NotALibraryFile => {},
            StartupDecision::SkipInvalidName => {},
            StartupDecision::SkipMissingDatabase => {},
        }
        proof {
            assert(ids@ =~= spec_startup_loads(ev.take(i as int + 1)));
        }
        i = i + 1;
    }
    proof {
        assert(ev.take(n as int) =~= ev);
    }
    Ok(ids)
}

/// A crash between config persistence and database creation leaves a config
/// file with no sibling database: no directory entry probes `Exists` for
/// that id, so a subsequent startup loads every other library and never
/// this one — the entry is skipped, not a phantom and not a failure.
pub proof fn lemma_crashed_creation_is_skipped(entries: Seq<StartupEntryV>, id: u128)
    requires
        forall|k: int|
            0 <= k < entries.len() ==> !((#[trigger] entries[k]).is_file && entries[k].db_probe
                is Exists && spec_parse_config_file_name(entries[k].file_name) == Some(id)),
    ensures
        !spec_startup_loads(entries).contains(id),
    decreases entries.len(),
{
    if entries.len() > 0 {
        let front = entries.drop_last();
        assert forall|k: int| 0 <= k < front.len() implies !((#[trigger] front[k]).is_file
            && front[k].db_probe is Exists && spec_parse_config_file_name(front[k].file_name)
            == Some(id)) by {
            assert(front[k] == entries[k]);
        }
        lemma_crashed_creation_is_skipped(front, id);
        assert(entries[entries.len() - 1] == entries.last());
        match spec_entry_load(entries.last()) {
            Some(loaded) => {
                assert(loaded != id);
                if spec_startup_loads(entries).contains(id) {
                    let j = choose|j: int|
                        0 <= j < spec_startup_loads(entries).len() && spec_startup_loads(
                            entries,
                        )[j] == id;
                    if j < spec_startup_loads(front).len() {
                        assert(spec_startup_loads(front).contains(id));
                    }
                }
            },
            None => {},
        }
    }
}

/// Predicate: a library with the given id.
pub open spec fn library_id_is(id: u128) -> spec_fn(Library) -> bool {
    |l: Library| l.id == id
}

/// The library manager: the registry of loaded libraries and the directory
/// their files live in.
#[derive(Debug)]
pub struct LibraryManager {
    /// Path of the directory where library files are stored.
    pub libraries_dir: String,
    /// The loaded libraries, at most one per id.
    pub libraries: Vec<Library>,
}

impl LibraryManager {
    /// The ids of the loaded libraries, in registry order.
    pub open spec fn spec_ids(self) -> Seq<u128> {
        self.libraries@.map_values(|l: Library| l.id)
    }

    /// Whether a library with this id is loaded.
    pub open spec fn spec_contains(self, id: u128) -> bool {
        spec_find(self.libraries@, library_id_is(id)) is Some
    }

    /// At most one registry entry per library id.
    pub open spec fn wf(self) -> bool {
        forall|i: int, j: int|
            0 <= i < j < self.libraries@.len() ==> (#[trigger] self.libraries@[i]).id != (
            #[trigger] self.libraries@[j]).id
    }

    /// A manager over the given directory with an empty registry; startup
    /// discovery then loads and registers each discovered library.
    pub fn new(libraries_dir: String) -> (r: LibraryManager)
        ensures
            r.wf(),
            r.libraries@.len() == 0,
            r.libraries_dir@ == libraries_dir@,
    {
        LibraryManager { libraries_dir, libraries: Vec::new() }
    }

    /// Index of the loaded library with this id, if any.
    fn find_library_index(&self, id: u128) -> (r: Option<usize>)
        ensures
            match r {
                Some(i) => spec_find(self.libraries@, library_id_is(id)) == Some(i as int),
                None => spec_find(self.libraries@, library_id_is(id)) is None,
            },
    {
        let n: usize = self.libraries.len();
        let mut i: usize = 0;
        while i < n
            invariant
                i <= n,
                n == self.libraries@.len(),
                forall|j: int| 0 <= j < i ==> !library_id_is(id)(#[trigger] self.libraries@[j]),
            decreases n - i,
        {
            if self.libraries[i].id == id {
                proof {
                    assert(library_id_is(id)(self.libraries@[i as int]));
                    lemma_spec_find_is_first(self.libraries@, library_id_is(id), i as int);
                }
                return Some(i);
            }
            proof {
                assert(!library_id_is(id)(self.libraries@[i as int]));
            }
            i = i + 1;
        }
        proof {
            lemma_spec_find_none(self.libraries@, library_id_is(id));
        }
        None
    }

    /// Appends a loaded library to the registry unless one with the same id
    /// is already live: two loads of one id never yield two entries.
    pub fn register(&mut self, library: Library) -> (added: bool)
        requires
            old(self).wf(),
        ensures
            final(self).wf(),
            final(self).libraries_dir == old(self).libraries_dir,
            final(self).spec_contains(library.id),
            added == !old(self).spec_contains(library.id),
            added ==> final(self).libraries@ == old(self).libraries@.push(library),
            !added ==> final(self).libraries@ == old(self).libraries@,
    {
        proof {
            lemma_spec_find(old(self).libraries@, library_id_is(library.id));
        }
        let ghost lid = library.id;
        match self.find_library_index(library.id) {
            Some(_) => false,
            None => {
                self.libraries.push(library);
                proof {
                    lemma_spec_find_is_first(
                        self.libraries@,
                        library_id_is(lid),
                        self.libraries@.len() - 1,
                    );
                }
                true
            },
        }
    }

    /// Validates a new library's config and gives the two file names its
    /// files will live under: the config file must be persisted before any
    /// database work, so that a crash in between leaves a skippable, not a
    /// corrupt, state. A name that is empty or all-whitespace is rejected.
    pub fn create_with_uuid(&self, id: u128, config: &LibraryConfig) -> (r: Result<
        (String, String),
        LibraryManagerError,
    >)
        ensures
            r is Ok <==> spec_name_valid(config.name@),
            r matches Ok(f) ==> f.0@ == spec_config_file_name(id) && f.1@ == spec_db_file_name(id),
            r is Err ==> r->Err_0 is InvalidConfig,
    {
        if !library_name_is_valid(config.name.as_str()) {
            let mut m = String::new();
            m.append("name cannot be empty");
            return Err(LibraryManagerError::InvalidConfig(m));
        }
        Ok((config_file_name(id), db_file_name(id)))
    }

    /// Starts creation of a library under a fresh id; the rest is as
    /// `create_with_uuid`.
    pub fn create(&self, config: &LibraryConfig) -> (r: Result<
        (u128, String, String),
        LibraryManagerError,
    >)
        ensures
            r is Ok <==> spec_name_valid(config.name@),
            r matches Ok(f) ==> f.1@ == spec_config_file_name(f.0) && f.2@ == spec_db_file_name(
                f.0,
            ),
            r is Err ==> r->Err_0 is InvalidConfig,
    {
        let id = generate_library_id();
        match self.create_with_uuid(id, config) {
            Ok((cfg, dbf)) => Ok((id, cfg, dbf)),
            Err(e) => Err(e),
        }
    }

    /// Finishes creation once the library is loaded and its config file is
    /// on disk: seeds the fresh database with the default indexer rules and
    /// registers the library. The caller then emits the `library.list`
    /// invalidation signal.
    pub fn create_with_uuid_finish(&mut self, library: Library) -> (r: LibraryConfigWrapped)
        requires
            old(self).wf(),
            library.wf(),
            library.db@.next_id + 2 <= i64::MAX,
        ensures
            final(self).wf(),
            final(self).libraries_dir == old(self).libraries_dir,
            final(self).spec_contains(library.id),
            r.uuid == library.id,
            r.config.eqv(library.config),
            !old(self).spec_contains(library.id) ==> final(self).libraries@.len() == old(self).libraries@.len() + 1 && final(self).libraries@.last().id == library.id && final(self).libraries@.last().config == library.config,
            old(self).spec_contains(library.id) ==> final(self).libraries@ == old(self).libraries@,
    {
        let mut library = library;
        crate::indexer::indexer_rules_seeder(&mut library.db);
        let wrapped = LibraryConfigWrapped { uuid: library.id, config: library.config.duplicate() };
        self.register(library);
        wrapped
    }

    /// A read-lock snapshot: each loaded library's id with a copy of its
    /// config, in registry order.
    pub fn get_all_libraries_config(&self) -> (r: Vec<LibraryConfigWrapped>)
        ensures
            r@.len() == self.libraries@.len(),
            forall|i: int|
                0 <= i < r@.len() ==> (#[trigger] r@[i]).uuid == self.libraries@[i].id
                    && r@[i].config.eqv(self.libraries@[i].config),
    {
        let mut r: Vec<LibraryConfigWrapped> = Vec::new();
        let n: usize = self.libraries.len();
        let mut i: usize = 0;
        while i < n
            invariant
                i <= n,
                n == self.libraries@.len(),
                r@.len() == i,
                forall|j: int|
                    0 <= j < i ==> (#[trigger] r@[j]).uuid == self.libraries@[j].id
                        && r@[j].config.eqv(self.libraries@[j].config),
            decreases n - i,
        {
            let lib = &self.libraries[i];
            r.push(LibraryConfigWrapped { uuid: lib.id, config: lib.config.duplicate() });
            i = i + 1;
        }
        r
    }

    /// Applies the present fields to the library's config under the write
    /// lock and returns a copy of the new config for the caller to persist
    /// and to follow with the `library.list` invalidation signal.
    pub fn edit(&mut self, id: u128, name: Option<String>, description: Option<String>) -> (r:
        Result<LibraryConfig, LibraryManagerError>)
        requires
            old(self).wf(),
        ensures
            final(self).wf(),
            final(self).libraries_dir == old(self).libraries_dir,
            match spec_find(old(self).libraries@, library_id_is(id)) {
                Some(i) => {
                    &&& r is Ok
                    &&& final(self).libraries@.len() == old(self).libraries@.len()
                    &&& (forall|j: int|
                        0 <= j < old(self).libraries@.len() && j != i
                            ==> #[trigger] final(self).libraries@[j] == old(self).libraries@[j])
                    &&& final(self).libraries@[i].id == old(self).libraries@[i].id
                    &&& final(self).libraries@[i].config.name == (match name {
                        Some(n) => n,
                        None => old(self).libraries@[i].config.name,
                    })
                    &&& final(self).libraries@[i].config.description == (match description {
                        Some(d) => d,
                        None => old(self).libraries@[i].config.description,
                    })
                    &&& final(self).libraries@[i].local_id == old(self).libraries@[i].local_id
                    &&& final(self).libraries@[i].key_manager == old(self).libraries@[i].key_manager
                    &&& final(self).libraries@[i].db == old(self).libraries@[i].db
                    &&& final(self).libraries@[i].orphan_remover == old(self).libraries@[i].orphan_remover
                    &&& final(self).libraries@[i].node_local_id == old(self).libraries@[i].node_local_id
                    &&& r->Ok_0.eqv(final(self).libraries@[i].config)
                },
                None => r matches Err(LibraryManagerError::LibraryNotFound) && final(self).libraries@ == old(self).libraries@,
            },
    {
        proof {
            lemma_spec_find(old(self).libraries@, library_id_is(id));
        }
        match self.find_library_index(id) {
            None => Err(LibraryManagerError::LibraryNotFound),
            Some(i) => {
                let mut lib = self.libraries.remove(i);
                match name {
                    Some(n) => {
                        lib.config.name = n;
                    },
                    None => {},
                }
                match description {
                    Some(d) => {
                        lib.config.description = d;
                    },
                    None => {},
                }
                let new_config = lib.config.duplicate();
                self.libraries.insert(i, lib);
                proof {
                    assert(self.libraries@ =~= old(self).libraries@.update(
                        i as int,
                        self.libraries@[i as int],
                    ));
                }
                Ok(new_config)
            },
        }
    }

    /// The two file names a deletion must remove, or `LibraryNotFound`.
    pub fn delete_targets(&self, id: u128) -> (r: Result<
        (String, String),
        LibraryManagerError,
    >)
        ensures
            r is Ok <==> self.spec_contains(id),
            r matches Ok(f) ==> f.0@ == spec_db_file_name(id) && f.1@ == spec_config_file_name(id),
            r is Err ==> r->Err_0 is LibraryNotFound,
    {
        match self.find_library_index(id) {
            Some(_) => Ok((db_file_name(id), config_file_name(id))),
            None => Err(LibraryManagerError::LibraryNotFound),
        }
    }

    /// Completes a deletion after the driver removed the two backing files
    /// concurrently. The registry entry goes away only when both removals
    /// succeeded; if either failed, the library stays registered and the
    /// error is surfaced, so a later retry starts from the same state — no
    /// partial deletion is silently accepted. The caller follows a
    /// successful deletion with the `library.list` invalidation signal.
    pub fn delete(&mut self, id: u128, db_file_removed: bool, config_file_removed: bool) -> (r:
        Result<(), LibraryManagerError>)
        requires
            old(self).wf(),
        ensures
            final(self).wf(),
            final(self).libraries_dir == old(self).libraries_dir,
            match spec_find(old(self).libraries@, library_id_is(id)) {
                Some(i) => {
                    &&& (db_file_removed && config_file_removed) ==> r is Ok && final(self).libraries@ == old(self).libraries@.remove(i) && !final(self).spec_contains(
                        id,
                    )
                    &&& !(db_file_removed && config_file_removed) ==> (r matches Err(
                        LibraryManagerError::FileIO(_),
                    )) && final(self).libraries@ == old(self).libraries@
                },
                None => r matches Err(LibraryManagerError::LibraryNotFound) && final(self).libraries@ == old(self).libraries@,
            },
    {
        proof {
            lemma_spec_find(old(self).libraries@, library_id_is(id));
        }
        match self.find_library_index(id) {
            None => Err(LibraryManagerError::LibraryNotFound),
            Some(i) => {
                if db_file_removed && config_file_removed {
                    self.libraries.remove(i);
                    proof {
                        assert forall|j: int|
                            0 <= j < self.libraries@.len() implies !library_id_is(id)(
                            #[trigger] self.libraries@[j],
                        ) by {
                            if j < i {
                                assert(self.libraries@[j] == old(self).libraries@[j]);
                            } else {
                                assert(self.libraries@[j] == old(self).libraries@[j + 1]);
                            }
                        }
                        lemma_spec_find_none(self.libraries@, library_id_is(id));
                    }
                    Ok(())
                } else {
                    let mut m = String::new();
                    m.append("failed to remove the library's files");
                    Err(LibraryManagerError::FileIO(m))
                }
            },
        }
    }

    /// Read-lock lookup: the loaded library with this id, if any.
    pub fn get_library(&self, library_id: u128) -> (r: Option<&Library>)
        ensures
            match r {
                Some(l) => self.spec_contains(library_id) && *l == self.libraries@[spec_find(
                    self.libraries@,
                    library_id_is(library_id),
                )->Some_0] && l.id == library_id,
                None => !self.spec_contains(library_id),
            },
    {
        proof {
            lemma_spec_find(self.libraries@, library_id_is(library_id));
        }
        match self.find_library_index(library_id) {
            Some(i) => Some(&self.libraries[i]),
            None => None,
        }
    }

    /// The query key of the cached library listing, invalidated after
    /// create, edit and delete.
    pub fn list_query_key() -> (r: String)
        ensures
            r@ == "library.list"@,
    {
        let mut r = String::new();
        r.append("library.list");
        r
    }

    /// Assembles a library from an opened, migrated database: upserts this
    /// node's record (the same node always receives the same library-local
    /// id), populates a fresh key manager from the persisted key records,
    /// constructs the orphan-reclamation actor, and reports which locations
    /// — those owned by this node — the driver must register with the
    /// location-watch manager.
    pub fn load(
        id: u128,
        config: LibraryConfig,
        node_pub_id: u128,
        node_name: &str,
        platform: Platform,
        db: LibraryDb,
    ) -> (r: Result<(Library, Vec<i64>), LibraryManagerError>)
        requires
            db.wf(),
            db@.next_id < i64::MAX,
        ensures
            r is Ok <==> spec_all_uuids_parse(db@.keys),
            r is Err ==> r->Err_0 is Uuid,
            r matches Ok(p) ==> ({
                let lib = p.0;
                let local_id = match spec_find(db@.nodes, node_pub_is(node_pub_id)) {
                    Some(i) => db@.nodes[i].id,
                    None => db@.next_id,
                };
                &&& lib.id == id
                &&& lib.config == config
                &&& lib.local_id == local_id
                &&& lib.node_local_id == local_id
                &&& lib.wf()
                &&& lib.db@.locations == db@.locations
                &&& lib.db@.file_paths == db@.file_paths
                &&& lib.db@.indexer_rules == db@.indexer_rules
                &&& lib.db@.objects == db@.objects
                &&& lib.db@.keys == db@.keys
                &&& lib.key_manager.keys_view() == Seq::new(
                    db@.keys.len(),
                    |i: int| spec_stored_key_of(
                        db@.keys[i],
                        uuid_parse_of(db@.keys[i].uuid)->Some_0,
                    ),
                )
                &&& lib.key_manager.default_key == (match spec_default_uuid(db@.keys) {
                    Some(u) => Some(uuid_parse_of(u)->Some_0),
                    None => None::<u128>,
                })
                &&& !lib.orphan_remover.pending
                &&& p.1@ == lib.db@.locations.filter(location_node_is(local_id)).map_values(
                    location_id_of(),
                )
            }),
    {
        let mut db = db;
        let ghost db0 = db@;
        let local_id = db.upsert_node(node_pub_id, node_name, platform);
        let mut key_manager = KeyManager::new();
        match seed_keymanager(&db.keys, &mut key_manager) {
            Ok(()) => {},
            Err(e) => {
                return Err(e);
            },
        }
        let to_watch = db.location_ids_for_node(local_id);
        let library = Library {
            id,
            local_id,
            config,
            key_manager,
            db,
            orphan_remover: OrphanRemoverActor::new(),
            node_local_id: local_id,
        };
        proof {
            assert(library.key_manager.keys_view() =~= Seq::new(
                db0.keys.len(),
                |i: int| spec_stored_key_of(db0.keys[i], uuid_parse_of(db0.keys[i].uuid)->Some_0),
            ));
        }
        Ok((library, to_watch))
    }

    /// Finishes a load once the driver registered each reported location
    /// with the location-watch manager and asked the job engine to resume
    /// incomplete jobs: any watch-registration failure aborts the load;
    /// a job-resumption failure is logged by the driver and never fatal —
    /// the library becomes usable either way.
    pub fn load_finalize(library: Library, watch_results: &Vec<bool>, resume_jobs_ok: bool) -> (r:
        Result<Library, LibraryManagerError>)
        ensures
            r is Ok <==> (forall|i: int|
                0 <= i < watch_results@.len() ==> #[trigger] watch_results@[i]),
            r matches Ok(l) ==> l == library,
            r is Err ==> r->Err_0 is LocationWatcher,
    {
        let _ = resume_jobs_ok;
        let n: usize = watch_results.len();
        let mut i: usize = 0;
        while i < n
            invariant
                i <= n,
                n == watch_results@.len(),
                forall|j: int| 0 <= j < i ==> #[trigger] watch_results@[j],
            decreases n - i,
        {
            if !watch_results[i] {
                let mut m = String::new();
                m.append("failed to watch a location of the library");
                return Err(LibraryManagerError::LocationWatcher(m));
            }
            i = i + 1;
        }
        Ok(library)
    }
}

/// For any library id, the registry of a well-formed manager holds at most
/// one entry: no sequence of loads or creations yields two live instances
/// of one id.
pub proof fn lemma_at_most_one_instance(m: LibraryManager, id: u128)
    requires
        m.wf(),
    ensures
        forall|i: int, j: int|
            0 <= i < j < m.libraries@.len() && (#[trigger] m.libraries@[i]).id == id ==> (
            #[trigger] m.libraries@[j]).id != id,
{
}

} // verus!

//! Key material: the persisted key records read from a library's database,
//! the in-memory keystore they are loaded into, and the seeding step run once
//! per library load.

use vstd::prelude::*;
use crate::error::LibraryManagerError;
use crate::ids::parse_library_id;
use crate::ids::uuid_parse_of;
use crate::text::str_concat;

verus! {

/// A persisted key record as it sits in the database: ids and enum tags in
/// their stored text form, cryptographic material as raw bytes. Created by
/// the key-manager subsystem, read once per library load, never mutated here.
#[derive(Debug)]
pub struct KeyRecord {
    pub uuid: String,
    pub version: String,
    pub key_type: String,
    pub algorithm: String,
    pub hashing_algorithm: String,
    pub content_salt: Vec<u8>,
    pub master_key: Vec<u8>,
    pub master_key_nonce: Vec<u8>,
    pub key_nonce: Vec<u8>,
    pub key: String,
    pub salt: Vec<u8>,
    pub default: bool,
    pub automount: bool,
}

/// Mathematical view of a persisted key record.
pub ghost struct KeyRecordV {
    pub uuid: Seq<char>,
    pub version: Seq<char>,
    pub key_type: Seq<char>,
    pub algorithm: Seq<char>,
    pub hashing_algorithm: Seq<char>,
    pub content_salt: Seq<u8>,
    pub master_key: Seq<u8>,
    pub master_key_nonce: Seq<u8>,
    pub key_nonce: Seq<u8>,
    pub key: Seq<char>,
    pub salt: Seq<u8>,
    pub default: bool,
    pub automount: bool,
}

impl View for KeyRecord {
    type V = KeyRecordV;

    open spec fn view(&self) -> KeyRecordV {
        KeyRecordV {
            uuid: self.uuid@,
            version: self.version@,
            key_type: self.key_type@,
            algorithm: self.algorithm@,
            hashing_algorithm: self.hashing_algorithm@,
            content_salt: self.content_salt@,
            master_key: self.master_key@,
            master_key_nonce: self.master_key_nonce@,
            key_nonce: self.key_nonce@,
            key: self.key@,
            salt: self.salt@,
            default: self.default,
            automount: self.automount,
        }
    }
}

/// An in-memory key as the keystore holds it: the id parsed, the material
/// carried over, and `memory_only` always false for persisted keys.
#[derive(Debug)]
pub struct StoredKey {
    pub uuid: u128,
    pub version: String,
    pub key_type: String,
    pub algorithm: String,
    pub hashing_algorithm: String,
    pub content_salt: Vec<u8>,
    pub master_key: Vec<u8>,
    pub master_key_nonce: Vec<u8>,
    pub key_nonce: Vec<u8>,
    pub key: String,
    pub salt: Vec<u8>,
    pub memory_only: bool,
    pub automount: bool,
}

/// Mathematical view of an in-memory key.
pub ghost struct StoredKeyV {
    pub uuid: u128,
    pub version: Seq<char>,
    pub key_type: Seq<char>,
    pub algorithm: Seq<char>,
    pub hashing_algorithm: Seq<char>,
    pub content_salt: Seq<u8>,
    pub master_key: Seq<u8>,
    pub master_key_nonce: Seq<u8>,
    pub key_nonce: Seq<u8>,
    pub key: Seq<char>,
    pub salt: Seq<u8>,
    pub memory_only: bool,
    pub automount: bool,
}

impl View for StoredKey {
    type V = StoredKeyV;

    open spec fn view(&self) -> StoredKeyV {
        StoredKeyV {
            uuid: self.uuid,
            version: self.version@,
            key_type: self.key_type@,
            algorithm: self.algorithm@,
            hashing_algorithm: self.hashing_algorithm@,
            content_salt: self.content_salt@,
            master_key: self.master_key@,
            master_key_nonce: self.master_key_nonce@,
            key_nonce: self.key_nonce@,
            key: self.key@,
            salt: self.salt@,
            memory_only: self.memory_only,
            automount: self.automount,
        }
    }
}

/// What a persisted record becomes in memory, given the id it parses to.
pub open spec fn spec_stored_key_of(r: KeyRecordV, id: u128) -> StoredKeyV {
    StoredKeyV {
        uuid: id,
        version: r.version,
        key_type: r.key_type,
        algorithm: r.algorithm,
        hashing_algorithm: r.hashing_algorithm,
        content_salt: r.content_salt,
        master_key: r.master_key,
        master_key_nonce: r.master_key_nonce,
        key_nonce: r.key_nonce,
        key: r.key,
        salt: r.salt,
        memory_only: false,
        automount: r.automount,
    }
}

/// The in-memory keystore of one library: populated once at load, with at
/// most one key marked default.
#[derive(Debug)]
pub struct KeyManager {
    pub keys: Vec<StoredKey>,
    pub default_key: Option<u128>,
}

impl KeyManager {
    /// View of the keystore contents.
    pub open spec fn keys_view(self) -> Seq<StoredKeyV> {
        self.keys@.map_values(|k: StoredKey| k@)
    }

    /// An empty keystore with no default key.
    pub fn new() -> (r: KeyManager)
        ensures
            r.keys_view() == Seq::<StoredKeyV>::empty(),
            r.default_key is None,
    {
        let r = KeyManager { keys: Vec::new(), default_key: None };
        proof {
            assert(r.keys_view() =~= Seq::<StoredKeyV>::empty());
        }
        r
    }

    /// Appends the given keys to the keystore.
    pub fn populate_keystore(&mut self, mut stored_keys: Vec<StoredKey>)
        ensures
            final(self).keys_view() == old(self).keys_view() + stored_keys@.map_values(
                |k: StoredKey| k@,
            ),
            final(self).default_key == old(self).default_key,
    {
        let ghost added = stored_keys@.map_values(|k: StoredKey| k@);
        self.keys.append(&mut stored_keys);
        proof {
            assert(self.keys_view() =~= old(self).keys_view() + added);
        }
    }

    /// Marks the key with the given id as the default.
    pub fn set_default(&mut self, id: u128)
        ensures
            final(self).default_key == Some(id),
            final(self).keys_view() == old(self).keys_view(),
    {
        self.default_key = Some(id);
    }
}

/// The id of the record whose default flag wins: the last flagged one.
pub open spec fn spec_default_uuid(records: Seq<KeyRecordV>) -> Option<Seq<char>>
    decreases records.len(),
{
    if records.len() == 0 {
        None
    } else if records.last().default {
        Some(records.last().uuid)
    } else {
        spec_default_uuid(records.drop_last())
    }
}

/// Whether every record's stored uuid parses.
pub open spec fn spec_all_uuids_parse(records: Seq<KeyRecordV>) -> bool {
    forall|i: int| 0 <= i < records.len() ==> uuid_parse_of(records[i].uuid) is Some
}

/// Reads the persisted key records into the keystore: every record is parsed
/// and appended, and if any record is flagged default, the last such record's
/// id becomes the default key. A record whose stored uuid does not parse
/// fails the whole seeding and leaves the keystore untouched.
pub fn seed_keymanager(records: &Vec<KeyRecord>, km: &mut KeyManager) -> (r: Result<
    (),
    LibraryManagerError,
>)
    ensures
        r is Ok <==> spec_all_uuids_parse(records@.map_values(|k: KeyRecord| k@)),
        r is Ok ==> {
            let rv = records@.map_values(|k: KeyRecord| k@);
            &&& final(km).keys_view() == old(km).keys_view() + Seq::new(
                rv.len(),
                |i: int| spec_stored_key_of(rv[i], uuid_parse_of(rv[i].uuid)->Some_0),
            )
            &&& final(km).default_key == match spec_default_uuid(rv) {
                Some(u) => Some(uuid_parse_of(u)->Some_0),
                None => old(km).default_key,
            }
        },
        r is Err ==> *final(km) == *old(km) && r->Err_0 is Uuid,
{
    let ghost rv = records@.map_values(|k: KeyRecord| k@);
    let mut stored: Vec<StoredKey> = Vec::new();
    let mut default_id: Option<u128> = None;
    let n: usize = records.len();
    let mut i: usize = 0;
    while i < n
        invariant
            i <= n,
            n == records@.len(),
            rv == records@.map_values(|k: KeyRecord| k@),
            forall|j: int| 0 <= j < i ==> uuid_parse_of(rv[j].uuid) is Some,
            stored@.len() == i,
            forall|j: int|
                0 <= j < i ==> (#[trigger] stored@[j])@ == spec_stored_key_of(
                    rv[j],
                    uuid_parse_of(rv[j].uuid)->Some_0,
                ),
            default_id == match spec_default_uuid(rv.take(i as int)) {
                Some(u) => Some(uuid_parse_of(u)->Some_0),
                None => None::<u128>,
            },
        decreases n - i,
    {
        let rec = &records[i];
        let parsed = parse_library_id(rec.uuid.as_str());
        let id: u128 = match parsed {
            Some(id) => id,
            None => {
                proof {
                    assert(rv[i as int] == records@[i as int]@);
                    assert(!spec_all_uuids_parse(rv));
                }
                return Err(
                    LibraryManagerError::Uuid(str_concat("invalid key id in the DB: ", rec.uuid.as_str())),
                );
            },
        };
        if rec.default {
            default_id = Some(id);
        }
        let sk = StoredKey {
            uuid: id,
            version: rec.version.clone(),
            key_type: rec.key_type.clone(),
            algorithm: rec.algorithm.clone(),
            hashing_algorithm: rec.hashing_algorithm.clone(),
            content_salt: rec.content_salt.clone(),
            master_key: rec.master_key.clone(),
            master_key_nonce: rec.master_key_nonce.clone(),
            key_nonce: rec.key_nonce.clone(),
            key: rec.key.clone(),
            salt: rec.salt.clone(),
            memory_only: false,
            automount: rec.automount,
        };
        stored.push(sk);
        proof {
            assert(rv.take(i as int + 1).drop_last() =~= rv.take(i as int));
        }
        i = i + 1;
    }
    proof {
        assert(rv.take(n as int) =~= rv);
        assert(stored@.map_values(|k: StoredKey| k@) =~= Seq::new(
            rv.len(),
            |j: int| spec_stored_key_of(rv[j], uuid_parse_of(rv[j].uuid)->Some_0),
        ));
    }
    km.populate_keystore(stored);
    match default_id {
        Some(id) => km.set_default(id),
        None => {},
    }
    Ok(())
}

} // verus!

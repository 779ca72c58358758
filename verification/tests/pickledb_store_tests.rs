#![allow(dead_code)]
use pickledb::error::Error;
use pickledb::order::{key_order, KeyOrder};
use pickledb::{Change, DumpFile, PickleDb, PickleDbDumpPolicy, SerializationMethod};
use std::collections::HashMap;
use std::io;

/// Stands for the file system: files by path, a count of the writes, and a switch that makes
/// every write fail.
struct Disk {
    files: HashMap<String, Vec<u8>>,
    writes: usize,
    locked: bool,
}

impl Disk {
    fn new() -> Disk {
        Disk { files: HashMap::new(), writes: 0, locked: false }
    }

    fn read(&self, path: &str) -> io::Result<Vec<u8>> {
        match self.files.get(path) {
            Some(content) => Ok(content.clone()),
            None => Err(io::Error::new(io::ErrorKind::NotFound, "no such file")),
        }
    }

    fn write(&mut self, file: DumpFile) -> io::Result<()> {
        if self.locked {
            return Err(io::Error::new(io::ErrorKind::PermissionDenied, "file is locked"));
        }
        self.files.insert(file.temp_path.clone(), file.content);
        let content = self.files.remove(&file.temp_path).unwrap();
        self.files.insert(file.db_path, content);
        self.writes += 1;
        Ok(())
    }
}

/// Writes the file that a change asks for and reports the outcome to the store.
fn finish<T>(
    db: &mut PickleDb,
    disk: &mut Disk,
    step: Result<Change<T>, Error>,
    now: u128,
) -> Result<T, Error> {
    let change = step?;
    match change.dump {
        None => Ok(change.result),
        Some(pending) => match disk.write(pending.file) {
            Ok(()) => {
                db.dump_succeeded(now);
                Ok(change.result)
            }
            Err(cause) => Err(db.dump_failed(pending.undo, cause)),
        },
    }
}

/// Writes the file of an explicit dump and reports a success to the store.
fn dump(db: &mut PickleDb, disk: &mut Disk, now: u128) -> Result<(), Error> {
    match db.dump(now)? {
        None => Ok(()),
        Some(file) => match disk.write(file) {
            Ok(()) => {
                db.dump_succeeded(now);
                Ok(())
            }
            Err(cause) => Err(Error::new(pickledb::error::ErrorCode::Io(cause))),
        },
    }
}

/// What the store does when it is dropped: a last dump under the policies that dump.
fn close(db: PickleDb, disk: &mut Disk, now: u128) {
    if let Some(file) = db.close(now) {
        let _ = disk.write(file);
    }
}

fn load_read_only(disk: &Disk, path: &str, method: SerializationMethod) -> Result<PickleDb, Error> {
    PickleDb::load_read_only(path, disk.read(path), method, 0)
}

fn methods() -> Vec<SerializationMethod> {
    vec![
        SerializationMethod::from(0),
        SerializationMethod::from(1),
        SerializationMethod::from(2),
        SerializationMethod::from(3),
    ]
}

/// A value encoded as the serialization method encodes single values.
fn enc<V: serde::Serialize>(method: SerializationMethod, value: &V) -> Vec<u8> {
    match method {
        SerializationMethod::Json => serde_json::to_string(value).unwrap().into_bytes(),
        SerializationMethod::Bin => bincode::serialize(value).unwrap(),
        SerializationMethod::Yaml => serde_yaml::to_string(value).unwrap().into_bytes(),
        SerializationMethod::Cbor => serde_cbor::to_vec(value).unwrap(),
    }
}

/// The value that stored bytes decode to under the serialization method, if they do.
fn dec<V: serde::de::DeserializeOwned>(
    method: SerializationMethod,
    bytes: Option<&Vec<u8>>,
) -> Option<V> {
    let bytes = bytes?;
    match method {
        SerializationMethod::Json => serde_json::from_str(std::str::from_utf8(bytes).ok()?).ok(),
        SerializationMethod::Bin => bincode::deserialize(bytes).ok(),
        SerializationMethod::Yaml => serde_yaml::from_str(std::str::from_utf8(bytes).ok()?).ok(),
        SerializationMethod::Cbor => serde_cbor::from_slice(bytes).ok(),
    }
}

fn set<V: serde::Serialize>(
    db: &mut PickleDb,
    disk: &mut Disk,
    method: SerializationMethod,
    key: &str,
    value: &V,
    now: u128,
) -> Result<(), Error> {
    let step = db.set(key, enc(method, value), now);
    finish(db, disk, step, now)
}

fn get<V: serde::de::DeserializeOwned>(
    db: &PickleDb,
    method: SerializationMethod,
    key: &str,
) -> Option<V> {
    dec(method, db.get(key))
}

/// A structure of the caller's own, with its encoding written out.
#[derive(Debug)]
struct Coor {
    x: i32,
    y: i32,
}

impl serde::Serialize for Coor {
    fn serialize<S: serde::Serializer>(&self, serializer: S) -> Result<S::Ok, S::Error> {
        let mut fields = serde::Serializer::serialize_struct(serializer, "Coor", 2)?;
        serde::ser::SerializeStruct::serialize_field(&mut fields, "x", &self.x)?;
        serde::ser::SerializeStruct::serialize_field(&mut fields, "y", &self.y)?;
        serde::ser::SerializeStruct::end(fields)
    }
}

struct CoorVisitor;

impl<'de> serde::de::Visitor<'de> for CoorVisitor {
    type Value = Coor;

    fn expecting(&self, formatter: &mut std::fmt::Formatter) -> std::fmt::Result {
        formatter.write_str("struct Coor")
    }

    fn visit_seq<A: serde::de::SeqAccess<'de>>(self, mut seq: A) -> Result<Coor, A::Error> {
        let x = match seq.next_element()? {
            Some(x) => x,
            None => return Err(serde::de::Error::invalid_length(0, &self)),
        };
        let y = match seq.next_element()? {
            Some(y) => y,
            None => return Err(serde::de::Error::invalid_length(1, &self)),
        };
        Ok(Coor { x, y })
    }

    fn visit_map<A: serde::de::MapAccess<'de>>(self, mut map: A) -> Result<Coor, A::Error> {
        let mut x: Option<i32> = None;
        let mut y: Option<i32> = None;
        while let Some(name) = map.next_key::<String>()? {
            if name == "x" {
                x = Some(map.next_value()?);
            } else if name == "y" {
                y = Some(map.next_value()?);
            } else {
                return Err(serde::de::Error::unknown_field(&name, &["x", "y"]));
            }
        }
        match (x, y) {
            (Some(x), Some(y)) => Ok(Coor { x, y }),
            (None, _) => Err(serde::de::Error::missing_field("x")),
            (_, None) => Err(serde::de::Error::missing_field("y")),
        }
    }
}

impl<'de> serde::Deserialize<'de> for Coor {
    fn deserialize<D: serde::Deserializer<'de>>(deserializer: D) -> Result<Coor, D::Error> {
        deserializer.deserialize_struct("Coor", &["x", "y"], CoorVisitor)
    }
}

const SEC: u128 = 1_000_000_000;

fn ladd<V: serde::Serialize>(
    db: &mut PickleDb,
    disk: &mut Disk,
    method: SerializationMethod,
    name: &str,
    value: &V,
    now: u128,
) -> Result<bool, Error> {
    let step = db.ladd(name, enc(method, value), now);
    finish(db, disk, step, now)
}

fn lcreate(db: &mut PickleDb, disk: &mut Disk, name: &str, now: u128) -> Result<(), Error> {
    let step = db.lcreate(name, now);
    finish(db, disk, step, now)
}

fn lget<V: serde::de::DeserializeOwned>(
    db: &PickleDb,
    method: SerializationMethod,
    name: &str,
    pos: usize,
) -> Option<V> {
    dec(method, db.lget(name, pos))
}

#[test]
fn scenario_json_auto_dump() {
    let method = SerializationMethod::Json;
    let mut disk = Disk::new();
    let mut db = PickleDb::new("s.db", PickleDbDumpPolicy::AutoDump, method, 0);
    set(&mut db, &mut disk, method, "a", &1, 1).unwrap();
    set(&mut db, &mut disk, method, "b", &"x", 1).unwrap();
    lcreate(&mut db, &mut disk, "L", 1).unwrap();
    assert!(ladd(&mut db, &mut disk, method, "L", &1, 1).unwrap());
    assert!(ladd(&mut db, &mut disk, method, "L", &"y", 1).unwrap());

    assert_eq!(get::<i32>(&db, method, "a"), Some(1));
    assert_eq!(db.llen("L"), 2);
    assert_eq!(lget::<i32>(&db, method, "L", 0), Some(1));
    assert_eq!(lget::<String>(&db, method, "L", 1), Some(String::from("y")));
}

#[test]
fn scenario_overwrite_across_types() {
    for method in [SerializationMethod::Json, SerializationMethod::Cbor] {
        let mut disk = Disk::new();
        let mut db = PickleDb::new("s.db", PickleDbDumpPolicy::AutoDump, method, 0);
        set(&mut db, &mut disk, method, "k", &100, 1).unwrap();
        set(&mut db, &mut disk, method, "k", &"override", 1).unwrap();
        assert_eq!(get::<i32>(&db, method, "k"), None);
        assert_eq!(get::<String>(&db, method, "k"), Some(String::from("override")));
        assert_eq!(db.total_keys(), 1);
    }
}

#[test]
fn scenario_dump_upon_request_skips_the_file() {
    for method in methods() {
        let mut disk = Disk::new();
        let mut db = PickleDb::new("s.db", PickleDbDumpPolicy::DumpUponRequest, method, 0);
        set(&mut db, &mut disk, method, "k", &1, 1).unwrap();
        let early = load_read_only(&disk, "s.db", method);
        assert!(early.is_err());
        assert!(matches!(early.err().unwrap().get_type(), pickledb::error::ErrorType::Io));
        assert_eq!(disk.writes, 0);

        dump(&mut db, &mut disk, 2).unwrap();
        assert_eq!(disk.writes, 1);
        let read_db = load_read_only(&disk, "s.db", method).unwrap();
        assert_eq!(get::<i32>(&read_db, method, "k"), Some(1));

        // a later change is not written, not even when the store is closed
        set(&mut db, &mut disk, method, "k2", &2, 3).unwrap();
        close(db, &mut disk, 4);
        assert_eq!(disk.writes, 1);
        let read_db = load_read_only(&disk, "s.db", method).unwrap();
        assert!(read_db.key_exists("k"));
        assert!(!read_db.key_exists("k2"));
    }
}

#[test]
fn namespace_partition() {
    for method in methods() {
        let mut disk = Disk::new();
        let mut db = PickleDb::new("s.db", PickleDbDumpPolicy::NeverDump, method, 0);

        // set, then create a list of that name
        set(&mut db, &mut disk, method, "k", &7, 1).unwrap();
        lcreate(&mut db, &mut disk, "k", 1).unwrap();
        assert!(db.key_exists("k"));
        assert!(db.get("k").is_none());
        assert_eq!(get::<i32>(&db, method, "k"), None);
        assert!(db.lexists("k"));
        assert_eq!(db.total_keys(), 1);

        // and the other way round: no trace of the list is left
        assert!(ladd(&mut db, &mut disk, method, "k", &1, 1).unwrap());
        set(&mut db, &mut disk, method, "k", &8, 1).unwrap();
        assert!(db.key_exists("k"));
        assert_eq!(get::<i32>(&db, method, "k"), Some(8));
        assert!(!db.lexists("k"));
        assert_eq!(db.llen("k"), 0);
        assert!(db.lget("k", 0).is_none());
        assert_eq!(db.total_keys(), 1);
        assert_eq!(db.get_all(), vec![String::from("k")]);
    }
}

#[test]
fn auto_dump_writes_once_for_each_change() {
    for method in methods() {
        let mut disk = Disk::new();
        let mut db = PickleDb::new("s.db", PickleDbDumpPolicy::AutoDump, method, 0);

        set(&mut db, &mut disk, method, "key1", &1, 1).unwrap();
        assert_eq!(disk.writes, 1);
        assert_eq!(get::<i32>(&load_read_only(&disk, "s.db", method).unwrap(), method, "key1"), Some(1));

        let step = db.rem("key1", 1);
        assert!(finish(&mut db, &mut disk, step, 1).unwrap());
        assert_eq!(disk.writes, 2);
        assert!(!load_read_only(&disk, "s.db", method).unwrap().key_exists("key1"));

        // removing what is not there changes nothing and writes nothing
        let step = db.rem("key1", 1);
        assert!(!finish(&mut db, &mut disk, step, 1).unwrap());
        assert_eq!(disk.writes, 2);

        lcreate(&mut db, &mut disk, "list1", 1).unwrap();
        assert_eq!(disk.writes, 3);
        let read_db = load_read_only(&disk, "s.db", method).unwrap();
        assert!(read_db.key_exists("list1"));
        assert_eq!(read_db.llen("list1"), 0);

        let step = db.lextend("list1", vec![enc(method, &1), enc(method, &2), enc(method, &3)], 1);
        assert!(finish(&mut db, &mut disk, step, 1).unwrap());
        assert_eq!(disk.writes, 4);
        assert_eq!(load_read_only(&disk, "s.db", method).unwrap().llen("list1"), 3);

        let step = db.lpop("list1", 0, 1);
        let popped = finish(&mut db, &mut disk, step, 1).unwrap();
        assert_eq!(dec::<i32>(method, popped.as_ref()), Some(1));
        assert_eq!(disk.writes, 5);
        assert_eq!(load_read_only(&disk, "s.db", method).unwrap().llen("list1"), 2);

        let step = db.lrem_value("list1", &enc(method, &2), 1);
        assert!(finish(&mut db, &mut disk, step, 1).unwrap());
        assert_eq!(disk.writes, 6);
        let read_db = load_read_only(&disk, "s.db", method).unwrap();
        assert_eq!(read_db.llen("list1"), 1);
        assert_eq!(lget::<i32>(&read_db, method, "list1", 0), Some(3));

        let step = db.lrem_list("list1", 1);
        assert_eq!(finish(&mut db, &mut disk, step, 1).unwrap(), 1);
        assert_eq!(disk.writes, 7);
        assert!(!load_read_only(&disk, "s.db", method).unwrap().key_exists("list1"));
    }
}

#[test]
fn periodic_dump_defers_until_the_interval_has_passed() {
    for method in methods() {
        let mut disk = Disk::new();
        let mut db = PickleDb::new("s.db", PickleDbDumpPolicy::PeriodicDump(SEC), method, 10 * SEC);

        // less than a second after the store was made: no write
        set(&mut db, &mut disk, method, "key1", &"value1", 10 * SEC + SEC / 2).unwrap();
        assert_eq!(disk.writes, 0);
        assert!(load_read_only(&disk, "s.db", method).is_err());

        // a second and more after: written, with what was deferred
        set(&mut db, &mut disk, method, "key2", &"value2", 11 * SEC + SEC / 20).unwrap();
        assert_eq!(disk.writes, 1);
        let read_db = load_read_only(&disk, "s.db", method).unwrap();
        assert!(read_db.key_exists("key1"));
        assert!(read_db.key_exists("key2"));

        // right after a dump: deferred again
        set(&mut db, &mut disk, method, "key3", &"value3", 11 * SEC + SEC / 10).unwrap();
        assert_eq!(disk.writes, 1);
        assert!(!load_read_only(&disk, "s.db", method).unwrap().key_exists("key3"));

        // an explicit dump is written and moves the time of the last dump
        dump(&mut db, &mut disk, 11 * SEC + SEC / 2).unwrap();
        assert_eq!(disk.writes, 2);
        assert!(load_read_only(&disk, "s.db", method).unwrap().key_exists("key3"));
        set(&mut db, &mut disk, method, "key4", &"value4", 12 * SEC + SEC / 4).unwrap();
        assert_eq!(disk.writes, 2);

        // exactly the interval after the last dump: written
        set(&mut db, &mut disk, method, "key5", &"value5", 12 * SEC + SEC / 2).unwrap();
        assert_eq!(disk.writes, 3);
        assert!(load_read_only(&disk, "s.db", method).unwrap().key_exists("key4"));

        // a clock that has gone back counts as no time passed
        set(&mut db, &mut disk, method, "key6", &"value6", SEC).unwrap();
        assert_eq!(disk.writes, 3);

        // closing the store writes what is left
        close(db, &mut disk, 12 * SEC + SEC);
        assert_eq!(disk.writes, 4);
        assert!(load_read_only(&disk, "s.db", method).unwrap().key_exists("key6"));
    }
}

#[test]
fn read_only_store_never_writes() {
    for method in methods() {
        let mut disk = Disk::new();
        let mut db = PickleDb::new("s.db", PickleDbDumpPolicy::AutoDump, method, 0);
        set(&mut db, &mut disk, method, "key1", &"value1", 1).unwrap();
        assert_eq!(disk.writes, 1);

        let mut read_db1 = load_read_only(&disk, "s.db", method).unwrap();
        set(&mut read_db1, &mut disk, method, "key2", &"value2", 2).unwrap();
        assert!(read_db1.key_exists("key2"));
        assert_eq!(disk.writes, 1);

        // an explicit dump writes nothing either
        assert!(read_db1.dump(3).unwrap().is_none());
        dump(&mut read_db1, &mut disk, 3).unwrap();
        assert_eq!(disk.writes, 1);

        // nor does closing the store
        assert!(read_db1.close(4).is_none());
        let read_db2 = load_read_only(&disk, "s.db", method).unwrap();
        assert!(read_db2.key_exists("key1"));
        assert!(!read_db2.key_exists("key2"));
    }
}

#[test]
fn failed_write_leaves_the_store_as_it_was() {
    for method in methods() {
        let mut disk = Disk::new();
        let mut db = PickleDb::new("s.db", PickleDbDumpPolicy::AutoDump, method, 0);
        set(&mut db, &mut disk, method, "num", &100, 1).unwrap();
        lcreate(&mut db, &mut disk, "both", 1).unwrap();
        assert!(ladd(&mut db, &mut disk, method, "both", &1, 1).unwrap());
        disk.locked = true;

        // a set that would have replaced a list gives the list back
        let failed = set(&mut db, &mut disk, method, "both", &5, 2);
        assert!(matches!(failed.err().unwrap().get_type(), pickledb::error::ErrorType::Io));
        assert!(db.lexists("both"));
        assert!(db.get("both").is_none());
        assert_eq!(lget::<i32>(&db, method, "both", 0), Some(1));

        // a new list that would have replaced a value gives the value back
        let failed = lcreate(&mut db, &mut disk, "num", 2);
        assert!(failed.is_err());
        assert!(!db.lexists("num"));
        assert_eq!(get::<i32>(&db, method, "num"), Some(100));

        // a new key is gone again
        let failed = set(&mut db, &mut disk, method, "fresh", &1, 2);
        assert!(failed.is_err());
        assert!(!db.key_exists("fresh"));
        assert_eq!(db.total_keys(), 2);

        // an item taken from the middle is back in its place
        disk.locked = false;
        assert!(ladd(&mut db, &mut disk, method, "both", &2, 3).unwrap());
        assert!(ladd(&mut db, &mut disk, method, "both", &3, 3).unwrap());
        disk.locked = true;
        let step = db.lpop("both", 1, 4);
        assert!(finish(&mut db, &mut disk, step, 4).is_err());
        assert_eq!(db.llen("both"), 3);
        assert_eq!(lget::<i32>(&db, method, "both", 0), Some(1));
        assert_eq!(lget::<i32>(&db, method, "both", 1), Some(2));
        assert_eq!(lget::<i32>(&db, method, "both", 2), Some(3));
        let step = db.lrem_value("both", &enc(method, &2), 4);
        assert!(finish(&mut db, &mut disk, step, 4).is_err());
        assert_eq!(lget::<i32>(&db, method, "both", 1), Some(2));
        assert_eq!(db.llen("both"), 3);
    }
}

#[test]
fn store_that_cannot_be_encoded_takes_the_change_back() {
    for method in [SerializationMethod::Json, SerializationMethod::Yaml] {
        let mut db = PickleDb::new("s.db", PickleDbDumpPolicy::AutoDump, method, 0);
        let mut disk = Disk::new();
        set(&mut db, &mut disk, method, "good", &1, 1).unwrap();

        // bytes that are no UTF-8 text cannot go into a text file
        let step = db.set("bad", vec![0xff, 0xfe], 2);
        let failed = step.err().unwrap();
        assert!(matches!(failed.get_type(), pickledb::error::ErrorType::Serialization));
        assert_eq!(failed.to_string(), "Cannot serialize DB: a stored value is not UTF-8 text");
        assert!(!db.key_exists("bad"));
        assert_eq!(db.total_keys(), 1);

        lcreate(&mut db, &mut disk, "list", 2).unwrap();
        let step = db.ladd("list", vec![0xc0], 2);
        assert!(step.is_err());
        assert_eq!(db.llen("list"), 0);
        assert_eq!(disk.writes, 2);
    }

    // the binary methods store any bytes
    for method in [SerializationMethod::Bin, SerializationMethod::Cbor] {
        let mut db = PickleDb::new("s.db", PickleDbDumpPolicy::AutoDump, method, 0);
        let mut disk = Disk::new();
        let step = db.set("raw", vec![0xff, 0xfe], 1);
        finish(&mut db, &mut disk, step, 1).unwrap();
        let read_db = load_read_only(&disk, "s.db", method).unwrap();
        assert_eq!(read_db.get("raw"), Some(&vec![0xff, 0xfe]));
    }

    // under a policy that does not dump, a text method stores them too, and fails on request
    let mut db = PickleDb::new_json("s.db", PickleDbDumpPolicy::DumpUponRequest, 0);
    assert!(db.set("raw", vec![0xff], 1).unwrap().dump.is_none());
    assert_eq!(db.get("raw"), Some(&vec![0xff]));
    let failed = db.dump(2).err().unwrap();
    assert!(matches!(failed.get_type(), pickledb::error::ErrorType::Serialization));
}

#[test]
fn list_index_semantics() {
    for method in methods() {
        let mut disk = Disk::new();
        let mut db = PickleDb::new("s.db", PickleDbDumpPolicy::NeverDump, method, 0);

        // a name that is no list
        assert_eq!(db.llen("list1"), 0);
        assert!(db.lget("list1", 0).is_none());
        assert!(!ladd(&mut db, &mut disk, method, "list1", &1, 1).unwrap());
        assert!(db.lpop("list1", 0, 1).unwrap().result.is_none());
        assert!(!db.lrem_value("list1", &enc(method, &1), 1).unwrap().result);
        assert_eq!(db.lrem_list("list1", 1).unwrap().result, 0);
        assert!(!db.key_exists("list1"));

        // a value is no list either
        set(&mut db, &mut disk, method, "num", &1, 1).unwrap();
        assert_eq!(db.llen("num"), 0);
        assert!(!ladd(&mut db, &mut disk, method, "num", &1, 1).unwrap());

        lcreate(&mut db, &mut disk, "list1", 1).unwrap();
        assert_eq!(db.llen("list1"), 0);
        assert!(db.lget("list1", 0).is_none());
        let step = db.lextend("list1", vec![enc(method, &10), enc(method, &20), enc(method, &30)], 1);
        assert!(finish(&mut db, &mut disk, step, 1).unwrap());
        assert_eq!(db.llen("list1"), 3);
        assert_eq!(lget::<i32>(&db, method, "list1", 0), Some(10));
        assert_eq!(lget::<i32>(&db, method, "list1", 2), Some(30));
        assert!(db.lget("list1", 3).is_none());
        assert!(db.lget("list1", usize::MAX).is_none());
        assert!(db.lpop("list1", 3, 1).unwrap().result.is_none());
        assert_eq!(db.llen("list1"), 3);

        // creating the list again empties it
        lcreate(&mut db, &mut disk, "list1", 1).unwrap();
        assert_eq!(db.llen("list1"), 0);
    }
}

#[test]
fn list_operations_keep_the_order() {
    for method in methods() {
        let mut disk = Disk::new();
        let mut db = PickleDb::new("s.db", PickleDbDumpPolicy::AutoDump, method, 0);
        lcreate(&mut db, &mut disk, "list1", 1).unwrap();
        let items: Vec<Vec<u8>> = [1, 2, 3, 2, 4].iter().map(|i| enc(method, i)).collect();
        let step = db.lextend("list1", items, 1);
        assert!(finish(&mut db, &mut disk, step, 1).unwrap());
        assert!(ladd(&mut db, &mut disk, method, "list1", &"text", 1).unwrap());

        // only the first of two equal items leaves
        let step = db.lrem_value("list1", &enc(method, &2), 1);
        assert!(finish(&mut db, &mut disk, step, 1).unwrap());
        let step = db.lrem_value("list1", &enc(method, &9), 1);
        assert!(!finish(&mut db, &mut disk, step, 1).unwrap());
        let step = db.lpop("list1", 0, 1);
        assert_eq!(dec::<i32>(method, finish(&mut db, &mut disk, step, 1).unwrap().as_ref()), Some(1));

        let read_db = load_read_only(&disk, "s.db", method).unwrap();
        for store in [&db, &read_db] {
            assert_eq!(store.llen("list1"), 4);
            assert_eq!(lget::<i32>(store, method, "list1", 0), Some(3));
            assert_eq!(lget::<i32>(store, method, "list1", 1), Some(2));
            assert_eq!(lget::<i32>(store, method, "list1", 2), Some(4));
            assert_eq!(lget::<String>(store, method, "list1", 3), Some(String::from("text")));

            let mut walk = store.liter("list1");
            let mut seen: Vec<Vec<u8>> = Vec::new();
            while let Some(item) = walk.next() {
                seen.push(item.get_item().clone());
            }
            assert_eq!(
                seen,
                vec![enc(method, &3), enc(method, &2), enc(method, &4), enc(method, &"text")]
            );
            assert!(walk.next().is_none());
        }

        // a walk over a name that is no list meets nothing
        assert!(db.liter("missing").next().is_none());
    }
}

#[test]
fn walk_over_keys_and_values() {
    for method in methods() {
        let mut disk = Disk::new();
        let mut db = PickleDb::new("s.db", PickleDbDumpPolicy::DumpUponRequest, method, 0);
        set(&mut db, &mut disk, method, "key1", &1, 1).unwrap();
        set(&mut db, &mut disk, method, "key2", &1.5f64, 1).unwrap();
        set(&mut db, &mut disk, method, "key3", &String::from("value1"), 1).unwrap();
        lcreate(&mut db, &mut disk, "list1", 1).unwrap();
        set(&mut db, &mut disk, method, "key1", &2, 1).unwrap();

        let mut walk = db.iter();
        let mut seen: Vec<String> = Vec::new();
        while let Some(pair) = walk.next() {
            match pair.get_key() {
                "key1" => assert_eq!(dec::<i32>(method, Some(pair.get_value())), Some(2)),
                "key2" => assert_eq!(dec::<f64>(method, Some(pair.get_value())), Some(1.5)),
                "key3" => assert_eq!(
                    dec::<String>(method, Some(pair.get_value())),
                    Some(String::from("value1"))
                ),
                _ => panic!(),
            }
            seen.push(pair.get_key().to_string());
        }
        seen.sort();
        assert_eq!(seen, vec!["key1", "key2", "key3"]);

        // the keys of the values come first, then the names of the lists
        let keys = db.get_all();
        assert_eq!(keys.len(), 4);
        assert_eq!(keys[3], "list1");
        assert_eq!(db.total_keys(), 4);
    }
}

#[test]
fn values_of_every_kind_come_back_from_every_method() {
    for method in methods() {
        assert_eq!(dec::<i32>(method, Some(&enc(method, &-5))), Some(-5));
        assert_eq!(dec::<u64>(method, Some(&enc(method, &u64::MAX))), Some(u64::MAX));
        assert_eq!(dec::<f64>(method, Some(&enc(method, &2.5f64))), Some(2.5));
        assert_eq!(dec::<bool>(method, Some(&enc(method, &true))), Some(true));
        assert_eq!(dec::<String>(method, Some(&enc(method, &"a b"))), Some(String::from("a b")));
        assert_eq!(
            dec::<Vec<String>>(method, Some(&enc(method, &vec!["aa", "bb"]))),
            Some(vec![String::from("aa"), String::from("bb")])
        );
        assert_eq!(dec::<(i32, char)>(method, Some(&enc(method, &(1, 'c')))), Some((1, 'c')));
        let coor: Coor = dec(method, Some(&enc(method, &Coor { x: 3, y: -4 }))).unwrap();
        assert_eq!((coor.x, coor.y), (3, -4));
    }
}

#[test]
fn dumped_store_loads_as_it_was() {
    for method in methods() {
        let mut disk = Disk::new();
        let mut db = PickleDb::new("s.db", PickleDbDumpPolicy::DumpUponRequest, method, 0);
        set(&mut db, &mut disk, method, "num", &100, 1).unwrap();
        set(&mut db, &mut disk, method, "text", &"1", 1).unwrap();
        set(&mut db, &mut disk, method, "", &"empty key", 1).unwrap();
        lcreate(&mut db, &mut disk, "empty", 1).unwrap();
        lcreate(&mut db, &mut disk, "mixed", 1).unwrap();
        assert!(ladd(&mut db, &mut disk, method, "mixed", &3, 1).unwrap());
        assert!(ladd(&mut db, &mut disk, method, "mixed", &"two", 1).unwrap());
        assert!(ladd(&mut db, &mut disk, method, "mixed", &vec![1, 1], 1).unwrap());
        dump(&mut db, &mut disk, 2).unwrap();

        let loaded =
            PickleDb::load("s.db", disk.read("s.db"), PickleDbDumpPolicy::AutoDump, method, 3)
                .unwrap();
        let mut keys = loaded.get_all();
        keys.sort();
        let mut expected = db.get_all();
        expected.sort();
        assert_eq!(keys, expected);
        assert_eq!(loaded.total_keys(), 5);
        for key in ["num", "text", ""] {
            assert_eq!(loaded.get(key), db.get(key));
            assert!(loaded.get(key).is_some());
        }
        assert!(loaded.lexists("empty"));
        assert_eq!(loaded.llen("empty"), 0);
        assert_eq!(loaded.llen("mixed"), 3);
        for pos in 0..3 {
            assert_eq!(loaded.lget("mixed", pos), db.lget("mixed", pos));
        }
        assert_eq!(lget::<i32>(&loaded, method, "mixed", 0), Some(3));
        assert_eq!(lget::<String>(&loaded, method, "mixed", 1), Some(String::from("two")));
        assert_eq!(lget::<Vec<i32>>(&loaded, method, "mixed", 2), Some(vec![1, 1]));

        // the loaded store dumps the same file again
        assert_eq!(loaded.dump(4).unwrap().unwrap().content, disk.read("s.db").unwrap());
    }
}

#[test]
fn dump_file_content_of_each_method() {
    let build = |method: SerializationMethod| {
        let mut db = PickleDb::new("s.db", PickleDbDumpPolicy::DumpUponRequest, method, 0);
        db.set("a", vec![b'1'], 1).unwrap();
        db.dump(2).unwrap().unwrap().content
    };

    assert_eq!(build(SerializationMethod::Json), b"[{\"a\":\"1\"},{}]".to_vec());
    assert_eq!(
        build(SerializationMethod::Bin),
        vec![
            1, 0, 0, 0, 0, 0, 0, 0, 1, 0, 0, 0, 0, 0, 0, 0, 97, 1, 0, 0, 0, 0, 0, 0, 0, 49, 0, 0, 0,
            0, 0, 0, 0, 0
        ]
    );
    assert_eq!(
        build(SerializationMethod::Cbor),
        vec![0x82, 0xa1, 0x61, 0x61, 0x81, 0x18, 0x31, 0xa0]
    );
    let yaml = String::from_utf8(build(SerializationMethod::Yaml)).unwrap();
    let parsed: (HashMap<String, String>, HashMap<String, Vec<String>>) =
        serde_yaml::from_str(&yaml).unwrap();
    assert_eq!(parsed.0.len(), 1);
    assert_eq!(parsed.0["a"], "1");
    assert!(parsed.1.is_empty());

    // a list with two items, in JSON: each item is the text that was stored
    let mut db = PickleDb::new_json("s.db", PickleDbDumpPolicy::DumpUponRequest, 0);
    db.lcreate("L", 1).unwrap();
    db.lextend("L", vec![b"1".to_vec(), b"\"y\"".to_vec()], 1).unwrap();
    assert_eq!(db.dump(2).unwrap().unwrap().content, b"[{},{\"L\":[\"1\",\"\\\"y\\\"\"]}]".to_vec());

    // the keys are written in their order, whatever the order in which they were set
    let mut db = PickleDb::new_json("s.db", PickleDbDumpPolicy::DumpUponRequest, 0);
    db.set("b", b"2".to_vec(), 1).unwrap();
    db.set("a", b"1".to_vec(), 1).unwrap();
    assert_eq!(db.dump(2).unwrap().unwrap().content, b"[{\"a\":\"1\",\"b\":\"2\"},{}]".to_vec());
}

#[test]
fn load_reads_files_of_each_method() {
    let json = PickleDb::load_json(
        "s.db",
        Ok(b"[{\"a\":\"1\",\"s\":\"\\\"x\\\"\"},{\"L\":[\"1\",\"2\"]}]".to_vec()),
        PickleDbDumpPolicy::NeverDump,
        0,
    )
    .unwrap();
    assert_eq!(json.get("a"), Some(&b"1".to_vec()));
    assert_eq!(json.get("s"), Some(&b"\"x\"".to_vec()));
    assert_eq!(json.llen("L"), 2);
    assert_eq!(json.lget("L", 1), Some(&b"2".to_vec()));

    let yaml = PickleDb::load_yaml(
        "s.db",
        Ok(b"---\n- a: \"1\"\n- L:\n    - \"1\"\n    - \"2\"\n".to_vec()),
        PickleDbDumpPolicy::NeverDump,
        0,
    )
    .unwrap();
    assert_eq!(yaml.get("a"), Some(&b"1".to_vec()));
    assert_eq!(yaml.llen("L"), 2);

    let bin = PickleDb::load_bin(
        "s.db",
        Ok(vec![
            1, 0, 0, 0, 0, 0, 0, 0, 1, 0, 0, 0, 0, 0, 0, 0, 97, 1, 0, 0, 0, 0, 0, 0, 0, 49, 0, 0, 0,
            0, 0, 0, 0, 0,
        ]),
        PickleDbDumpPolicy::NeverDump,
        0,
    )
    .unwrap();
    assert_eq!(bin.get("a"), Some(&vec![49]));
    assert_eq!(bin.total_keys(), 1);

    let cbor = PickleDb::load_cbor(
        "s.db",
        Ok(vec![0x82, 0xa1, 0x61, 0x61, 0x81, 0x18, 0x31, 0xa0]),
        PickleDbDumpPolicy::NeverDump,
        0,
    )
    .unwrap();
    assert_eq!(cbor.get("a"), Some(&vec![49]));
    assert_eq!(cbor.total_keys(), 1);
}

#[test]
fn load_rejects_what_is_no_database() {
    for method in methods() {
        for content in [b"".to_vec(), b"not a database".to_vec(), vec![0xff, 0xff, 0xff], b"{}".to_vec()] {
            let r = PickleDb::load("s.db", Ok(content), PickleDbDumpPolicy::AutoDump, method, 0);
            let e = r.err().unwrap();
            assert!(matches!(e.get_type(), pickledb::error::ErrorType::Serialization));
        }
    }
    // bytes that are no UTF-8 text are no file of a text method
    for method in [SerializationMethod::Json, SerializationMethod::Yaml] {
        let r = PickleDb::load_read_only("s.db", Ok(vec![b'[', 0xff, b']']), method, 0);
        assert_eq!(r.err().unwrap().to_string(), "Cannot deserialize DB");
    }
    // a failed read is an I/O error with the system's message
    let cause = io::Error::new(io::ErrorKind::PermissionDenied, "no way in");
    let e = PickleDb::load_json("s.db", Err(cause), PickleDbDumpPolicy::AutoDump, 0).err().unwrap();
    assert!(matches!(e.get_type(), pickledb::error::ErrorType::Io));
    assert_eq!(e.to_string(), "no way in");
}

#[test]
fn load_keeps_a_name_with_a_value_and_a_list() {
    let file = b"[{\"k\":\"1\",\"v\":\"2\"},{\"k\":[\"3\"]}]".to_vec();
    let load = || {
        PickleDb::load_json("s.db", Ok(file.clone()), PickleDbDumpPolicy::AutoDump, 0).unwrap()
    };

    // the store has the two maps of the file: the name is a value and a list
    let db = load();
    assert_eq!(db.get("k"), Some(&b"1".to_vec()));
    assert!(db.lexists("k"));
    assert!(db.key_exists("k"));
    assert_eq!(db.llen("k"), 1);
    assert_eq!(db.lget("k", 0), Some(&b"3".to_vec()));
    assert_eq!(db.get("v"), Some(&b"2".to_vec()));
    assert_eq!(db.total_keys(), 3);
    assert_eq!(db.get_all(), vec!["k", "v", "k"]);
    assert_eq!(db.dump(1).unwrap().unwrap().content, file);

    // the list operations leave the value alone
    let mut disk = Disk::new();
    let mut db = load();
    let step = db.ladd("k", b"4".to_vec(), 1);
    assert!(finish(&mut db, &mut disk, step, 1).unwrap());
    assert_eq!(db.get("k"), Some(&b"1".to_vec()));
    assert_eq!(db.llen("k"), 2);
    let step = db.lpop("k", 0, 1);
    assert_eq!(finish(&mut db, &mut disk, step, 1).unwrap(), Some(b"3".to_vec()));
    let step = db.lrem_list("k", 1);
    assert_eq!(finish(&mut db, &mut disk, step, 1).unwrap(), 1);
    assert!(!db.lexists("k"));
    assert_eq!(db.get("k"), Some(&b"1".to_vec()));
    assert_eq!(disk.read("s.db").unwrap(), b"[{\"k\":\"1\",\"v\":\"2\"},{}]".to_vec());

    // a failed removal of the list gives the list back and leaves the value
    let mut db = load();
    disk.locked = true;
    let step = db.lrem_list("k", 1);
    assert!(finish(&mut db, &mut disk, step, 1).is_err());
    assert_eq!(db.lget("k", 0), Some(&b"3".to_vec()));
    assert_eq!(db.get("k"), Some(&b"1".to_vec()));

    // a failed set, removal or new list gives back both the value and the list
    let step = db.set("k", b"9".to_vec(), 1);
    assert!(finish(&mut db, &mut disk, step, 1).is_err());
    let step = db.rem("k", 1);
    assert!(finish(&mut db, &mut disk, step, 1).is_err());
    let step = db.lcreate("k", 1);
    assert!(finish(&mut db, &mut disk, step, 1).is_err());
    assert_eq!(db.get("k"), Some(&b"1".to_vec()));
    assert_eq!(db.lget("k", 0), Some(&b"3".to_vec()));
    assert_eq!(db.total_keys(), 3);
    disk.locked = false;

    // set leaves the value only, a new list the list only, a removal neither
    let mut db = load();
    let step = db.set("k", b"9".to_vec(), 1);
    finish(&mut db, &mut disk, step, 1).unwrap();
    assert_eq!(db.get("k"), Some(&b"9".to_vec()));
    assert!(!db.lexists("k"));
    let mut db = load();
    let step = db.lcreate("k", 1);
    finish(&mut db, &mut disk, step, 1).unwrap();
    assert!(db.get("k").is_none());
    assert_eq!(db.llen("k"), 0);
    assert!(db.lexists("k"));
    let mut db = load();
    let step = db.rem("k", 1);
    assert!(finish(&mut db, &mut disk, step, 1).unwrap());
    assert!(!db.key_exists("k"));
    assert_eq!(db.total_keys(), 1);
}

#[test]
fn yaml_text_with_deep_block_nesting_is_no_database() {
    // one line of block entries, one inside the other
    let mut deep = String::from("---\n");
    for _ in 0..100_000 {
        deep.push_str("- ");
    }
    deep.push_str("a\n");
    let r = PickleDb::load_yaml("s.db", Ok(deep.into_bytes()), PickleDbDumpPolicy::NeverDump, 0);
    let e = r.err().unwrap();
    assert!(matches!(e.get_type(), pickledb::error::ErrorType::Serialization));
    assert_eq!(e.to_string(), "Cannot deserialize DB");

    // the same over many lines, each a column further in
    let mut deep = String::new();
    for column in 0..100_000 {
        deep.push_str(&" ".repeat(column % 4096));
        deep.push_str("-\n");
    }
    let r = PickleDb::load_yaml("s.db", Ok(deep.into_bytes()), PickleDbDumpPolicy::NeverDump, 0);
    assert_eq!(r.err().unwrap().to_string(), "Cannot deserialize DB");

    // and with keys without a value, or a carriage return in place of a line feed
    for unit in [": ", "? ", "-\t", "-\r", "- #c\r"] {
        let deep = unit.repeat(50_000);
        let r =
            PickleDb::load_yaml("s.db", Ok(deep.into_bytes()), PickleDbDumpPolicy::NeverDump, 0);
        assert_eq!(r.err().unwrap().to_string(), "Cannot deserialize DB");
    }

    assert!(pickledb::serialization::yaml_nesting_is_bounded(b""));
    assert!(pickledb::serialization::yaml_nesting_is_bounded(b"- a: 1\r\n- {}\r\n"));
    assert!(!pickledb::serialization::yaml_nesting_is_bounded(b"- a: 1\r- {}\n"));
    assert!(!pickledb::serialization::yaml_nesting_is_bounded(b"a\r"));
    assert!(pickledb::serialization::yaml_nesting_is_bounded(" ".repeat(128).as_bytes()));
    assert!(!pickledb::serialization::yaml_nesting_is_bounded(" ".repeat(129).as_bytes()));
    let long_value = format!("- key: \"{}\"\n- {{}}\n", "- ".repeat(5_000));
    assert!(pickledb::serialization::yaml_nesting_is_bounded(long_value.as_bytes()));
    let line = format!("a\n{}b\n", "-?: \t".repeat(26));
    assert!(!pickledb::serialization::yaml_nesting_is_bounded(line.as_bytes()));
}

#[test]
fn yaml_text_at_the_bound_of_nesting_is_read_to_the_end() {
    // block collections at every column up to the bound, two at each, and flow
    // collections inside the innermost: the text is read, and is no database
    let mut deep = String::new();
    for column in 0..127 {
        deep.push_str(&" ".repeat(column));
        deep.push_str("k:\n");
        deep.push_str(&" ".repeat(column));
        deep.push_str("-\n");
    }
    deep.push_str(&" ".repeat(127));
    deep.push_str(&"[".repeat(250));
    deep.push_str(&"]".repeat(250));
    deep.push('\n');
    assert!(pickledb::serialization::yaml_nesting_is_bounded(deep.as_bytes()));
    let r = PickleDb::load_yaml("s.db", Ok(deep.into_bytes()), PickleDbDumpPolicy::NeverDump, 0);
    assert!(matches!(r.err().unwrap().get_type(), pickledb::error::ErrorType::Serialization));

    let mut deep = String::new();
    for column in 0..128 {
        deep.push_str(&" ".repeat(column));
        deep.push_str("-\n");
    }
    assert!(pickledb::serialization::yaml_nesting_is_bounded(deep.as_bytes()));
    let r = PickleDb::load_yaml("s.db", Ok(deep.into_bytes()), PickleDbDumpPolicy::NeverDump, 0);
    assert!(r.is_err());

    // a database with wide indentation within the bound is read
    let wide = format!("- a: \"1\"\n- L:\n{}- \"x\"\n{}- \"y\"\n", " ".repeat(100), " ".repeat(100));
    let db = PickleDb::load_yaml("s.db", Ok(wide.into_bytes()), PickleDbDumpPolicy::NeverDump, 0)
        .unwrap();
    assert_eq!(db.get("a"), Some(&b"1".to_vec()));
    assert_eq!(db.llen("L"), 2);
}

#[test]
fn policy_step_gives_the_file_when_a_dump_is_due() {
    for method in methods() {
        let mut db = PickleDb::new("s.db", PickleDbDumpPolicy::PeriodicDump(SEC), method, 5 * SEC);
        db.set("k", enc(method, &1), 5 * SEC).unwrap();
        assert!(db.dumpdb(5 * SEC + SEC - 1).unwrap().is_none());
        let file = db.dumpdb(6 * SEC).unwrap().unwrap();
        assert_eq!(file.db_path, "s.db");
        assert_eq!(file.temp_path, "s.db.temp.6");
        assert_eq!(file.content, db.dump(6 * SEC).unwrap().unwrap().content);
        // asking changes nothing: the dump stays due until a write is recorded
        assert!(db.dumpdb(6 * SEC).unwrap().is_some());
        db.dump_succeeded(6 * SEC);
        assert!(db.dumpdb(6 * SEC + 1).unwrap().is_none());
        assert!(db.dumpdb(7 * SEC).unwrap().is_some());

        let db = PickleDb::new("s.db", PickleDbDumpPolicy::AutoDump, method, 0);
        assert!(db.dumpdb(0).unwrap().is_some());
        let db = PickleDb::new("s.db", PickleDbDumpPolicy::DumpUponRequest, method, 0);
        assert!(db.dumpdb(u128::MAX).unwrap().is_none());
        let db = PickleDb::new("s.db", PickleDbDumpPolicy::NeverDump, method, 0);
        assert!(db.dumpdb(u128::MAX).unwrap().is_none());
    }
    let mut db = PickleDb::new_json("s.db", PickleDbDumpPolicy::AutoDump, 0);
    assert!(db.set("raw", vec![0xff], 1).is_err());
    let mut db = PickleDb::new_json("s.db", PickleDbDumpPolicy::DumpUponRequest, 0);
    db.set("raw", vec![0xff], 1).unwrap();
    assert!(db.dumpdb(2).unwrap().is_none());
}

#[test]
fn dump_file_paths() {
    let mut db = PickleDb::new_bin("dir/my.db", PickleDbDumpPolicy::AutoDump, 0);
    let pending = db.set("k", vec![1], 12 * SEC + SEC / 2).unwrap().dump.unwrap();
    assert_eq!(pending.file.db_path, "dir/my.db");
    assert_eq!(pending.file.temp_path, "dir/my.db.temp.12");

    let file = db.dump(SEC - 1).unwrap().unwrap();
    assert_eq!(file.temp_path, "dir/my.db.temp.0");
    let file = db.dump(1_700_000_000 * SEC).unwrap().unwrap();
    assert_eq!(file.temp_path, "dir/my.db.temp.1700000000");
    let file = db.close(u128::MAX).unwrap();
    assert_eq!(file.temp_path, "dir/my.db.temp.340282366920938463463374607431");
    assert_eq!(file.db_path, "dir/my.db");
}

#[test]
fn serialization_method_numbers_and_names() {
    assert!(matches!(SerializationMethod::from(0), SerializationMethod::Json));
    assert!(matches!(SerializationMethod::from(1), SerializationMethod::Bin));
    assert!(matches!(SerializationMethod::from(2), SerializationMethod::Yaml));
    assert!(matches!(SerializationMethod::from(3), SerializationMethod::Cbor));
    assert!(matches!(SerializationMethod::from(4), SerializationMethod::Json));
    assert!(matches!(SerializationMethod::from(-1), SerializationMethod::Json));
    assert_eq!(SerializationMethod::Json.to_string(), "Json");
    assert_eq!(SerializationMethod::Bin.to_string(), "Bin");
    assert_eq!(SerializationMethod::Yaml.to_string(), "Yaml");
    assert_eq!(SerializationMethod::Cbor.to_string(), "Cbor");
}

#[test]
fn constructors_pick_the_method() {
    let content = |db: PickleDb| db.dump(0).unwrap().unwrap().content;
    let policy = PickleDbDumpPolicy::DumpUponRequest;
    assert_eq!(content(PickleDb::new_json("s.db", policy, 0)), b"[{},{}]".to_vec());
    assert_eq!(content(PickleDb::new_bin("s.db", policy, 0)), vec![0; 16]);
    assert_eq!(content(PickleDb::new_cbor("s.db", policy, 0)), vec![0x82, 0xa0, 0xa0]);
    let yaml = content(PickleDb::new_yaml("s.db", policy, 0));
    assert!(PickleDb::load_yaml("s.db", Ok(yaml.clone()), policy, 0).is_ok());
    assert!(PickleDb::load_bin("s.db", Ok(yaml), policy, 0).is_err());
    for method in methods() {
        let db = PickleDb::new("s.db", policy, method, 0);
        assert_eq!(db.total_keys(), 0);
        assert!(db.get_all().is_empty());
        let bytes = content(db);
        let again = PickleDb::load("s.db", Ok(bytes), policy, method, 0).unwrap();
        assert_eq!(again.total_keys(), 0);
    }
}

#[test]
fn error_kinds_and_messages() {
    let e = Error::new(pickledb::error::ErrorCode::Serialization(String::from("bad bytes")));
    assert!(matches!(e.get_type(), pickledb::error::ErrorType::Serialization));
    assert_eq!(e.to_string(), "bad bytes");
    let e = Error::new(pickledb::error::ErrorCode::Io(io::Error::new(
        io::ErrorKind::Other,
        "disk full",
    )));
    assert!(matches!(e.get_type(), pickledb::error::ErrorType::Io));
    assert_eq!(e.to_string(), "disk full");
}

#[test]
fn text_and_key_helpers() {
    assert!(pickledb::text::bytes_eq(b"abc", b"abc"));
    assert!(!pickledb::text::bytes_eq(b"abc", b"abd"));
    assert!(!pickledb::text::bytes_eq(b"abc", b"ab"));
    assert!(pickledb::text::bytes_eq(b"", b""));
    assert_eq!(pickledb::text::utf8_text("😻".as_bytes()), Some("😻"));
    assert_eq!(pickledb::text::utf8_text(&[0xff]), None);
    assert_eq!(pickledb::text::utf8_text(&[0xc0, 0x80]), None);
    assert_eq!(pickledb::text::utf8_text(&[0xed, 0xa0, 0x80]), None);

    assert!(matches!(key_order("a", "b"), KeyOrder::Before));
    assert!(matches!(key_order("b", "a"), KeyOrder::After));
    assert!(matches!(key_order("ab", "ab"), KeyOrder::Same));
    assert!(matches!(key_order("", ""), KeyOrder::Same));
    assert!(matches!(key_order("", "a"), KeyOrder::Before));
    assert!(matches!(key_order("a", "ab"), KeyOrder::Before));
    assert!(matches!(key_order("ab", "a"), KeyOrder::After));
    assert!(matches!(key_order("B", "a"), KeyOrder::Before));
    assert!(matches!(key_order("z", "é"), KeyOrder::Before));
    assert!(matches!(key_order("שָׁלוֹם", "שָׁלוֹם"), KeyOrder::Same));
    for (a, b) in [("key1", "key10"), ("key10", "key2"), ("", "x"), ("é", "😻")] {
        assert!(a < b);
        assert!(matches!(key_order(a, b), KeyOrder::Before));
    }

    let sorted = pickledb::assoc::sorted_from(vec![
        (String::from("b"), 1u8),
        (String::from("a"), 2),
        (String::from("b"), 3),
    ]);
    assert_eq!(sorted, vec![(String::from("a"), 2u8), (String::from("b"), 3)]);
}

#[test]
fn keys_are_walked_in_their_order() {
    let mut db = PickleDb::new_json("s.db", PickleDbDumpPolicy::NeverDump, 0);
    for key in ["pear", "apple", "fig", "apple", "zebra", "Apple"] {
        db.set(key, b"1".to_vec(), 1).unwrap();
    }
    db.lcreate("m", 1).unwrap();
    db.lcreate("b", 1).unwrap();
    db.lcreate("fig", 1).unwrap();
    assert_eq!(db.get_all(), vec!["Apple", "apple", "pear", "zebra", "b", "fig", "m"]);
    let mut walk = db.iter();
    let mut seen = Vec::new();
    while let Some(pair) = walk.next() {
        seen.push(pair.get_key());
    }
    assert_eq!(seen, vec!["Apple", "apple", "pear", "zebra"]);
    db.rem("apple", 1).unwrap();
    db.rem("m", 1).unwrap();
    assert_eq!(db.get_all(), vec!["Apple", "pear", "zebra", "b", "fig"]);
}

//! The store: two maps in memory, a dump policy that says when they go to the file, and the
//! steps by which a change is applied, written out and, if the write fails, taken back.
//!
//! The store does no file operation itself. An operation that changes the store returns a
//! [`Change`]: when its `dump` is `Some`, the caller writes that file and reports the outcome
//! with [`PickleDb::dump_succeeded`] or [`PickleDb::dump_failed`]. Time is handed in as the
//! number of nanoseconds since the Unix epoch.

use vstd::prelude::*;
use vstd::slice::slice_to_vec;
use vstd::string::StringExecFns;
use crate::assoc::{as_map, distinct_keys, find, insert_at, keys_of, lemma_empty, lemma_entry, lemma_replace, lemma_size, lemma_sorted_distinct, lemma_sorted_replace, remove_at, search, sorted, Key};
use crate::iterators::{PickleDbIterator, PickleDbListIterator};
use crate::error::{Error, ErrorCode, Result};
use crate::model::{decimal, digit, lemma_list_restored, lemma_slot_restored, lemma_with_own_slot, lemma_with_slot_twice, temp_path_at, DbView, SlotView, UndoView, NANOS_PER_SEC};
use crate::serialization::{db_decoding, DbListMap, DbMap, SerializationMethod, Serializer};
use crate::text::{bytes_eq, lemma_bytes_view, lemma_items_view};

verus! {

/// When the store asks for its content to be written to its file.
#[derive(Debug, Clone, Copy)]
pub enum PickleDbDumpPolicy {
    /// Never: the file stays as it is, even on an explicit request.
    NeverDump,
    /// After every change.
    AutoDump,
    /// Only on an explicit request.
    DumpUponRequest,
    /// After a change, where at least this many nanoseconds have passed since the last dump.
    PeriodicDump(u128),
}

/// What a key names: a value, a list, neither, or, in a store loaded from a file that gives
/// the name both, a value and a list.
pub struct Slot {
    /// The stored bytes of the value that the key names, if it names one.
    pub value: Option<Vec<u8>>,
    /// The items of the list that the key names, if it names one.
    pub list: Option<Vec<Vec<u8>>>,
}

impl View for Slot {
    type V = SlotView;

    open spec fn view(&self) -> SlotView {
        SlotView {
            value: match self.value {
                Some(v) => Some(v@),
                None => None,
            },
            list: match self.list {
                Some(l) => Some(l.deep_view()),
                None => None,
            },
        }
    }
}

/// A file to write: the content goes to the temporary path, which is then renamed to the
/// path of the database, so that the database file is replaced in one step.
pub struct DumpFile {
    /// The path of the temporary file.
    pub temp_path: String,
    /// The path of the database file.
    pub db_path: String,
    /// The content to write.
    pub content: Vec<u8>,
}

impl DumpFile {
    /// This is the file that a dump of `db` at `now` writes, with `content` for its content.
    pub open spec fn is_dump_of(self, db: DbView, content: Seq<u8>, now: u128) -> bool {
        &&& self.db_path@ == db.path
        &&& self.temp_path@ == temp_path_at(db.path, now)
        &&& self.content@ == content
    }
}

/// How to take back a change whose dump did not reach the file.
pub enum Undo {
    /// Let the key name again what it named before.
    Restore { key: String, slot: Slot },
    /// Let the name be again the list that it was.
    PutList { name: String, items: Vec<Vec<u8>> },
    /// Cut the list back to its first `len` items.
    Truncate { name: String, len: usize },
    /// Put the item back into the list at `pos`.
    Reinsert { name: String, pos: usize, item: Vec<u8> },
}

impl View for Undo {
    type V = UndoView;

    open spec fn view(&self) -> UndoView {
        match self {
            Undo::Restore { key, slot } => UndoView::Restore { key: key@, slot: slot@ },
            Undo::PutList { name, items } => UndoView::PutList {
                name: name@,
                items: items.deep_view(),
            },
            Undo::Truncate { name, len } => UndoView::Truncate { name: name@, len: *len as nat },
            Undo::Reinsert { name, pos, item } => UndoView::Reinsert {
                name: name@,
                pos: *pos as nat,
                item: item@,
            },
        }
    }
}

/// A dump that a change has asked for: the file to write, and how to take the change back
/// if the write fails.
pub struct PendingDump {
    /// The file to write.
    pub file: DumpFile,
    /// What to hand to [`PickleDb::dump_failed`] if the write fails.
    pub undo: Undo,
}

/// The outcome of an operation that changes the store.
pub struct Change<T> {
    /// What the operation reports.
    pub result: T,
    /// The dump that the policy asks for after this change, if it asks for one.
    pub dump: Option<PendingDump>,
}

/// What holds after an operation that meant to take the store from `pre` to `post` at time
/// `now`, given the store `fin` that it left and the outcome `r` that it returned.
///
/// Where no dump is due, the change stands and nothing is to be written. Where one is due
/// and the store can be encoded, the change stands, the outcome holds the file to write,
/// and its undo leads back to `pre`. Where the store cannot be encoded, the store is as it
/// was before and the outcome is the serialization error.
pub open spec fn change_outcome<T>(
    pre: DbView,
    post: DbView,
    now: u128,
    fin: DbView,
    r: Result<Change<T>>,
) -> bool {
    if !post.dump_due(now) {
        fin == post && (r matches Ok(c) && c.dump is None)
    } else {
        match post.encoding() {
            Ok(content) => fin == post && (r matches Ok(c) && (c.dump matches Some(p)
                && p.file.is_dump_of(post, content, now) && p.undo@.revert(post) == pre)),
            Err(msg) => fin == pre && (r matches Err(e) && e.is_serialization(msg)),
        }
    }
}

/// What holds after an operation that found nothing to change: the store is as it was and
/// nothing is to be written.
pub open spec fn no_change<T>(pre: DbView, fin: DbView, r: Result<Change<T>>) -> bool {
    fin == pre && (r matches Ok(c) && c.dump is None)
}

/// The character of a decimal digit, as text.
fn digit_text(d: u128) -> (text: &'static str)
    requires
        d < 10,
    ensures
        text@ == seq![digit(d as nat)],
{
    proof {
        reveal_strlit("0");
        reveal_strlit("1");
        reveal_strlit("2");
        reveal_strlit("3");
        reveal_strlit("4");
        reveal_strlit("5");
        reveal_strlit("6");
        reveal_strlit("7");
        reveal_strlit("8");
        reveal_strlit("9");
    }
    let text = if d == 0 {
        "0"
    } else if d == 1 {
        "1"
    } else if d == 2 {
        "2"
    } else if d == 3 {
        "3"
    } else if d == 4 {
        "4"
    } else if d == 5 {
        "5"
    } else if d == 6 {
        "6"
    } else if d == 7 {
        "7"
    } else if d == 8 {
        "8"
    } else {
        "9"
    };
    assert(text@ =~= seq![digit(d as nat)]);
    text
}

/// The decimal digits of a number, as text.
fn decimal_text(n: u128) -> (text: String)
    ensures
        text@ == decimal(n as nat),
    decreases n,
{
    if n < 10 {
        digit_text(n).to_owned()
    } else {
        let mut text = decimal_text(n / 10);
        text.append(digit_text(n % 10));
        text
    }
}

/// A key-value and list store.
pub struct PickleDb {
    map: DbMap,
    list_map: DbListMap,
    serializer: Serializer,
    db_file_path: String,
    dump_policy: PickleDbDumpPolicy,
    last_dump: u128,
}

impl View for PickleDb {
    type V = DbView;

    closed spec fn view(&self) -> DbView {
        DbView {
            scalars: as_map(self.map.deep_view()),
            lists: as_map(self.list_map.deep_view()),
            path: self.db_file_path@,
            policy: self.dump_policy,
            method: self.serializer.method(),
            last_dump: self.last_dump,
        }
    }
}

impl PickleDb {
    /// The store is well formed: the keys of each of its two maps are listed in their order.
    /// Every store that this library hands out is well formed.
    pub closed spec fn wf(&self) -> bool {
        &&& sorted(self.map.deep_view())
        &&& sorted(self.list_map.deep_view())
    }

    /// The keys with their values, in the order in which the store walks them.
    pub closed spec fn scalar_entries(&self) -> Seq<(Key, Seq<u8>)> {
        self.map.deep_view()
    }

    /// The lists with their items, in the order in which the store walks them.
    pub closed spec fn list_entries(&self) -> Seq<(Key, Seq<Seq<u8>>)> {
        self.list_map.deep_view()
    }

    /// The keys that name a value, in the order in which the store walks them.
    pub open spec fn scalar_keys(&self) -> Seq<Key> {
        keys_of(self.scalar_entries())
    }

    /// The keys that name a list, in the order in which the store walks them.
    pub open spec fn list_keys(&self) -> Seq<Key> {
        keys_of(self.list_entries())
    }

    /// The walk of a well-formed store meets the keys in their order, every key once, with
    /// what the key names.
    pub proof fn lemma_entries(&self)
        requires
            self.wf(),
        ensures
            sorted(self.scalar_entries()),
            sorted(self.list_entries()),
            distinct_keys(self.scalar_entries()),
            distinct_keys(self.list_entries()),
            as_map(self.scalar_entries()) == self@.scalars,
            as_map(self.list_entries()) == self@.lists,
    {
        lemma_sorted_distinct(self.map.deep_view());
        lemma_sorted_distinct(self.list_map.deep_view());
    }
}

/// What `load` returns for the outcome `content` of reading the file: for a failed read the
/// I/O error with its cause, for bytes that the method cannot decode the serialization
/// error, and else the store that the bytes hold.
pub open spec fn load_outcome(
    db_path: Seq<char>,
    content: std::result::Result<Vec<u8>, std::io::Error>,
    dump_policy: PickleDbDumpPolicy,
    serialization_method: SerializationMethod,
    now: u128,
    r: Result<PickleDb>,
) -> bool {
    match content {
        Err(cause) => r matches Err(e) && e.is_io(cause),
        Ok(bytes) => match db_decoding(serialization_method, bytes@) {
            Err(msg) => r matches Err(e) && e.is_serialization(msg),
            Ok(decoded) => r matches Ok(db) && db.wf() && db@ == DbView::loaded(
                decoded,
                db_path,
                dump_policy,
                serialization_method,
                now,
            ),
        },
    }
}

impl PickleDb {
    /// A new, empty store for the file at `db_path`, made at time `now`.
    pub fn new(
        db_path: &str,
        dump_policy: PickleDbDumpPolicy,
        serialization_method: SerializationMethod,
        now: u128,
    ) -> (db: PickleDb)
        ensures
            db@ == DbView::empty(db_path@, dump_policy, serialization_method, now),
            db.wf(),
            db@.partitioned(),
    {
        let db = PickleDb {
            map: Vec::new(),
            list_map: Vec::new(),
            serializer: Serializer::new(serialization_method),
            db_file_path: db_path.to_owned(),
            dump_policy,
            last_dump: now,
        };
        proof {
            lemma_empty::<Seq<u8>>();
            lemma_empty::<Seq<Seq<u8>>>();
            assert(db.map.deep_view() =~= Seq::empty());
            assert(db.list_map.deep_view() =~= Seq::empty());
        }
        db
    }

    /// A new, empty store that uses JSON.
    pub fn new_json(db_path: &str, dump_policy: PickleDbDumpPolicy, now: u128) -> (db: PickleDb)
        ensures
            db@ == DbView::empty(db_path@, dump_policy, SerializationMethod::Json, now),
            db.wf(),
            db@.partitioned(),
    {
        PickleDb::new(db_path, dump_policy, SerializationMethod::Json, now)
    }

    /// A new, empty store that uses bincode.
    pub fn new_bin(db_path: &str, dump_policy: PickleDbDumpPolicy, now: u128) -> (db: PickleDb)
        ensures
            db@ == DbView::empty(db_path@, dump_policy, SerializationMethod::Bin, now),
            db.wf(),
            db@.partitioned(),
    {
        PickleDb::new(db_path, dump_policy, SerializationMethod::Bin, now)
    }

    /// A new, empty store that uses YAML.
    pub fn new_yaml(db_path: &str, dump_policy: PickleDbDumpPolicy, now: u128) -> (db: PickleDb)
        ensures
            db@ == DbView::empty(db_path@, dump_policy, SerializationMethod::Yaml, now),
            db.wf(),
            db@.partitioned(),
    {
        PickleDb::new(db_path, dump_policy, SerializationMethod::Yaml, now)
    }

    /// A new, empty store that uses CBOR.
    pub fn new_cbor(db_path: &str, dump_policy: PickleDbDumpPolicy, now: u128) -> (db: PickleDb)
        ensures
            db@ == DbView::empty(db_path@, dump_policy, SerializationMethod::Cbor, now),
            db.wf(),
            db@.partitioned(),
    {
        PickleDb::new(db_path, dump_policy, SerializationMethod::Cbor, now)
    }

    /// Makes a store of the content of its file, read at time `now`.
    ///
    /// `content` is the outcome of reading the file at `db_path`: its bytes, or the error
    /// with which the read failed. A failed read gives an I/O error with that cause; bytes
    /// that the serialization method cannot decode give a serialization error.
    pub fn load(
        db_path: &str,
        content: std::result::Result<Vec<u8>, std::io::Error>,
        dump_policy: PickleDbDumpPolicy,
        serialization_method: SerializationMethod,
        now: u128,
    ) -> (r: Result<PickleDb>)
        ensures
            load_outcome(db_path@, content, dump_policy, serialization_method, now, r),
    {
        let bytes = match content {
            Ok(bytes) => bytes,
            Err(cause) => {
                return Err(Error::new(ErrorCode::Io(cause)));
            },
        };
        let serializer = Serializer::new(serialization_method);
        let (map, list_map) = match serializer.deserialize_db(bytes.as_slice()) {
            Ok(maps) => maps,
            Err(msg) => {
                return Err(Error::new(ErrorCode::Serialization(msg)));
            },
        };
        Ok(
            PickleDb {
                map,
                list_map,
                serializer,
                db_file_path: db_path.to_owned(),
                dump_policy,
                last_dump: now,
            },
        )
    }

    /// Makes a store of the content of a JSON file.
    pub fn load_json(
        db_path: &str,
        content: std::result::Result<Vec<u8>, std::io::Error>,
        dump_policy: PickleDbDumpPolicy,
        now: u128,
    ) -> (r: Result<PickleDb>)
        ensures
            load_outcome(db_path@, content, dump_policy, SerializationMethod::Json, now, r),
    {
        PickleDb::load(db_path, content, dump_policy, SerializationMethod::Json, now)
    }

    /// Makes a store of the content of a bincode file.
    pub fn load_bin(
        db_path: &str,
        content: std::result::Result<Vec<u8>, std::io::Error>,
        dump_policy: PickleDbDumpPolicy,
        now: u128,
    ) -> (r: Result<PickleDb>)
        ensures
            load_outcome(db_path@, content, dump_policy, SerializationMethod::Bin, now, r),
    {
        PickleDb::load(db_path, content, dump_policy, SerializationMethod::Bin, now)
    }

    /// Makes a store of the content of a YAML file.
    pub fn load_yaml(
        db_path: &str,
        content: std::result::Result<Vec<u8>, std::io::Error>,
        dump_policy: PickleDbDumpPolicy,
        now: u128,
    ) -> (r: Result<PickleDb>)
        ensures
            load_outcome(db_path@, content, dump_policy, SerializationMethod::Yaml, now, r),
    {
        PickleDb::load(db_path, content, dump_policy, SerializationMethod::Yaml, now)
    }

    /// Makes a store of the content of a CBOR file.
    pub fn load_cbor(
        db_path: &str,
        content: std::result::Result<Vec<u8>, std::io::Error>,
        dump_policy: PickleDbDumpPolicy,
        now: u128,
    ) -> (r: Result<PickleDb>)
        ensures
            load_outcome(db_path@, content, dump_policy, SerializationMethod::Cbor, now, r),
    {
        PickleDb::load(db_path, content, dump_policy, SerializationMethod::Cbor, now)
    }

    /// Makes a store of the content of its file, under the policy that never dumps.
    pub fn load_read_only(
        db_path: &str,
        content: std::result::Result<Vec<u8>, std::io::Error>,
        serialization_method: SerializationMethod,
        now: u128,
    ) -> (r: Result<PickleDb>)
        ensures
            load_outcome(db_path@, content, PickleDbDumpPolicy::NeverDump, serialization_method, now, r),
    {
        PickleDb::load(db_path, content, PickleDbDumpPolicy::NeverDump, serialization_method, now)
    }
}

impl PickleDb {
    /// The stored bytes of a key's value; `None` for a key that names no value.
    pub fn get(&self, key: &str) -> (value: Option<&Vec<u8>>)
        requires
            self.wf(),
        ensures
            match value {
                Some(v) => self@.scalars.contains_key(key@) && v@ == self@.scalars[key@],
                None => !self@.scalars.contains_key(key@),
            },
    {
        match find(&self.map, key) {
            Some(i) => {
                proof {
                    self.lemma_entries();
                    lemma_entry(self.map.deep_view(), i as int);
                }
                Some(&self.map[i].1)
            },
            None => None,
        }
    }

    /// Whether the key names a value or a list.
    pub fn key_exists(&self, key: &str) -> (found: bool)
        requires
            self.wf(),
        ensures
            found == (self@.scalars.contains_key(key@) || self@.lists.contains_key(key@)),
    {
        find(&self.map, key).is_some() || find(&self.list_map, key).is_some()
    }

    /// All the keys: those that name a value, then those that name a list. A key is listed
    /// once, but for one that names both a value and a list, which is listed twice.
    pub fn get_all(&self) -> (keys: Vec<String>)
        requires
            self.wf(),
        ensures
            keys.deep_view() == self.scalar_keys() + self.list_keys(),
            keys.deep_view().to_set() == self@.scalars.dom().union(self@.lists.dom()),
            self@.partitioned() ==> keys.deep_view().no_duplicates(),
    {
        let ghost m = self.map.deep_view();
        let ghost l = self.list_map.deep_view();
        let mut keys: Vec<String> = Vec::new();
        let mut i: usize = 0;
        while i < self.map.len()
            invariant
                i <= self.map.len(),
                keys.len() == i,
                m == self.map.deep_view(),
                forall|j: int| 0 <= j < i ==> (#[trigger] keys[j])@ == m[j].0,
            decreases self.map.len() - i,
        {
            assert(m[i as int].0 == self.map[i as int].0@);
            keys.push(self.map[i].0.clone());
            i += 1;
        }
        let mut n: usize = 0;
        while n < self.list_map.len()
            invariant
                n <= self.list_map.len(),
                keys.len() == self.map.len() + n,
                m == self.map.deep_view(),
                l == self.list_map.deep_view(),
                forall|j: int| 0 <= j < self.map.len() ==> (#[trigger] keys[j])@ == m[j].0,
                forall|j: int| 0 <= j < n ==> (#[trigger] keys[self.map.len() + j])@ == l[j].0,
            decreases self.list_map.len() - n,
        {
            assert(l[n as int].0 == self.list_map[n as int].0@);
            keys.push(self.list_map[n].0.clone());
            n += 1;
        }
        proof {
            let all = keys.deep_view();
            assert forall|j: int| 0 <= j < all.len() implies #[trigger] all[j] == (keys_of(m)
                + keys_of(l))[j] by {
                assert(all[j] == keys[j]@);
                if j >= m.len() {
                    assert(keys[self.map.len() + (j - m.len())]@ == l[j - m.len()].0);
                }
            }
            assert(all =~= keys_of(m) + keys_of(l));
            self.lemma_entries();
            lemma_size(m);
            lemma_size(l);
            if self@.partitioned() {
                assert forall|a: int, b: int| 0 <= a < all.len() && 0 <= b < all.len() && a
                    != b implies all[a] != all[b] by {
                    if a < m.len() && b >= m.len() {
                        lemma_entry(m, a);
                        lemma_entry(l, b - m.len());
                    }
                    if b < m.len() && a >= m.len() {
                        lemma_entry(m, b);
                        lemma_entry(l, a - m.len());
                    }
                    if a < m.len() && b < m.len() {
                        assert(keys_of(m)[a] != keys_of(m)[b]);
                    }
                    if a >= m.len() && b >= m.len() {
                        assert(keys_of(l)[a - m.len()] != keys_of(l)[b - m.len()]);
                    }
                }
            }
            vstd::seq_lib::seq_to_set_distributes_over_add(keys_of(m), keys_of(l));
        }
        keys
    }

    /// The number of keys: those that name a value and those that name a list. A number
    /// beyond `usize::MAX` is given as `usize::MAX`.
    pub fn total_keys(&self) -> (n: usize)
        requires
            self.wf(),
        ensures
            self@.scalars.dom().finite(),
            self@.lists.dom().finite(),
            n == if self@.scalars.len() + self@.lists.len() <= usize::MAX {
                self@.scalars.len() + self@.lists.len()
            } else {
                usize::MAX as nat
            },
    {
        proof {
            self.lemma_entries();
            lemma_size(self.map.deep_view());
            lemma_size(self.list_map.deep_view());
        }
        self.map.len().saturating_add(self.list_map.len())
    }

    /// Whether the name is a list.
    pub fn lexists(&self, name: &str) -> (found: bool)
        requires
            self.wf(),
        ensures
            found == self@.lists.contains_key(name@),
    {
        find(&self.list_map, name).is_some()
    }

    /// The number of items of a list; zero for a name that is no list.
    pub fn llen(&self, name: &str) -> (n: usize)
        requires
            self.wf(),
        ensures
            n == self@.list_len(name@),
    {
        match find(&self.list_map, name) {
            Some(i) => {
                proof {
                    self.lemma_entries();
                    lemma_entry(self.list_map.deep_view(), i as int);
                }
                self.list_map[i].1.len()
            },
            None => 0,
        }
    }

    /// The stored bytes of the item at `pos` of a list; `None` for a name that is no list
    /// and for a position at or beyond the list's length.
    pub fn lget(&self, name: &str, pos: usize) -> (item: Option<&Vec<u8>>)
        requires
            self.wf(),
        ensures
            item is Some <==> pos < self@.list_len(name@),
            item matches Some(v) ==> v@ == self@.lists[name@][pos as int],
    {
        match find(&self.list_map, name) {
            Some(i) => {
                proof {
                    self.lemma_entries();
                    lemma_entry(self.list_map.deep_view(), i as int);
                }
                if pos < self.list_map[i].1.len() {
                    Some(&self.list_map[i].1[pos])
                } else {
                    None
                }
            },
            None => None,
        }
    }

    /// A walk over the keys that name a value, with their values.
    pub fn iter(&self) -> (it: PickleDbIterator<'_>)
        ensures
            it.remaining() == self.scalar_entries(),
    {
        PickleDbIterator::over(&self.map)
    }

    /// A walk over the items of a list, in the list's order; over nothing for a name that
    /// is no list.
    pub fn liter(&self, name: &str) -> (it: PickleDbListIterator<'_>)
        requires
            self.wf(),
        ensures
            it.remaining() == if self@.lists.contains_key(name@) {
                self@.lists[name@]
            } else {
                Seq::empty()
            },
    {
        match self.list_position(name) {
            Some(i) => PickleDbListIterator::over(Some(&self.list_map[i].1)),
            None => PickleDbListIterator::over(None),
        }
    }
}

impl PickleDb {
    /// Sets the value of a key. A list of that name is removed.
    ///
    /// `value` is the value as encoded bytes. Where the policy asks for a dump at `now`, the
    /// outcome holds the file to write; where the store cannot be encoded, nothing has
    /// changed and the outcome is the error.
    pub fn set(&mut self, key: &str, value: Vec<u8>, now: u128) -> (r: Result<Change<()>>)
        requires
            old(self).wf(),
        ensures
            final(self).wf(),
            change_outcome(old(self)@, old(self)@.set(key@, value@), now, final(self)@, r),
    {
        let ghost pre = self@;
        let prior = self.take_slot(key);
        self.put_slot(key.to_owned(), Slot { value: Some(value), list: None });
        let undo = Undo::Restore { key: key.to_owned(), slot: prior };
        proof {
            lemma_with_slot_twice(pre, key@, SlotView::vacant(), SlotView::of_value(value@));
            lemma_slot_restored(pre, key@, SlotView::of_value(value@));
        }
        self.settle((), undo, now, Ghost(pre))
    }

    /// Removes a key, whether it names a value or a list, and reports whether it named one.
    ///
    /// For a key that names nothing, nothing changes and nothing is written.
    pub fn rem(&mut self, key: &str, now: u128) -> (r: Result<Change<bool>>)
        requires
            old(self).wf(),
        ensures
            final(self).wf(),
            if old(self)@.slot(key@).is_vacant() {
                no_change(old(self)@, final(self)@, r)
            } else {
                change_outcome(old(self)@, old(self)@.rem(key@), now, final(self)@, r)
            },
            r matches Ok(c) ==> c.result == !old(self)@.slot(key@).is_vacant(),
    {
        let ghost pre = self@;
        let prior = self.take_slot(key);
        if prior.value.is_none() && prior.list.is_none() {
            proof {
                lemma_with_own_slot(pre, key@);
            }
            Ok(Change { result: false, dump: None })
        } else {
            let undo = Undo::Restore { key: key.to_owned(), slot: prior };
            proof {
                lemma_slot_restored(pre, key@, SlotView::vacant());
            }
            self.settle(true, undo, now, Ghost(pre))
        }
    }

    /// Creates an empty list. A value or a list of that name is removed.
    pub fn lcreate(&mut self, name: &str, now: u128) -> (r: Result<Change<()>>)
        requires
            old(self).wf(),
        ensures
            final(self).wf(),
            change_outcome(old(self)@, old(self)@.lcreate(name@), now, final(self)@, r),
    {
        let ghost pre = self@;
        let prior = self.take_slot(name);
        let new_list: Vec<Vec<u8>> = Vec::new();
        proof {
            assert(new_list.deep_view() =~= Seq::<Seq<u8>>::empty());
        }
        self.put_slot(name.to_owned(), Slot { value: None, list: Some(new_list) });
        let undo = Undo::Restore { key: name.to_owned(), slot: prior };
        proof {
            lemma_with_slot_twice(pre, name@, SlotView::vacant(), SlotView::of_list(Seq::empty()));
            lemma_slot_restored(pre, name@, SlotView::of_list(Seq::empty()));
        }
        self.settle((), undo, now, Ghost(pre))
    }

    /// Adds an item at the end of a list, and reports whether the name is a list.
    ///
    /// For a name that is no list, nothing changes and nothing is written.
    pub fn ladd(&mut self, name: &str, item: Vec<u8>, now: u128) -> (r: Result<Change<bool>>)
        requires
            old(self).wf(),
        ensures
            final(self).wf(),
            if old(self)@.lists.contains_key(name@) {
                change_outcome(
                    old(self)@,
                    old(self)@.lextend(name@, seq![item@]),
                    now,
                    final(self)@,
                    r,
                )
            } else {
                no_change(old(self)@, final(self)@, r)
            },
            r matches Ok(c) ==> c.result == old(self)@.lists.contains_key(name@),
    {
        let mut items: Vec<Vec<u8>> = Vec::new();
        items.push(item);
        proof {
            lemma_items_view(items);
            assert(items.deep_view() =~= seq![item@]);
        }
        self.lextend(name, items, now)
    }

    /// Adds items at the end of a list, in their order, and reports whether the name is a
    /// list.
    ///
    /// For a name that is no list, nothing changes and nothing is written.
    pub fn lextend(&mut self, name: &str, items: Vec<Vec<u8>>, now: u128) -> (r: Result<
        Change<bool>,
    >)
        requires
            old(self).wf(),
        ensures
            final(self).wf(),
            if old(self)@.lists.contains_key(name@) {
                change_outcome(
                    old(self)@,
                    old(self)@.lextend(name@, items.deep_view()),
                    now,
                    final(self)@,
                    r,
                )
            } else {
                no_change(old(self)@, final(self)@, r)
            },
            r matches Ok(c) ==> c.result == old(self)@.lists.contains_key(name@),
    {
        let ghost pre = self@;
        let ghost start = *self;
        match self.list_position(name) {
            Some(i) => {
                let len_before = self.list_map[i].1.len();
                let ghost added = items;
                let mut items = items;
                self.list_map[i].1.append(&mut items);
                let undo = Undo::Truncate { name: name.to_owned(), len: len_before };
                proof {
                    let before = pre.lists[name@];
                    let after = before + added.deep_view();
                    lemma_items_view(start.list_map[i as int].1);
                    lemma_items_view(self.list_map[i as int].1);
                    lemma_items_view(added);
                    assert(self.list_map[i as int].1.deep_view() =~= after);
                    assert(self.list_map.deep_view() =~= start.list_map.deep_view().update(
                        i as int,
                        (start.list_map.deep_view()[i as int].0, after),
                    ));
                    lemma_list_replaced(start, *self, i as int, after);
                    assert(after.take(len_before as int) =~= before);
                    lemma_list_restored(pre, name@, after);
                }
                self.settle(true, undo, now, Ghost(pre))
            },
            None => Ok(Change { result: false, dump: None }),
        }
    }

    /// Takes the item at `pos` out of a list and gives its stored bytes.
    ///
    /// For a name that is no list and for a position at or beyond the list's length, nothing
    /// changes, nothing is written and the result is `None`.
    pub fn lpop(&mut self, name: &str, pos: usize, now: u128) -> (r: Result<
        Change<Option<Vec<u8>>>,
    >)
        requires
            old(self).wf(),
        ensures
            final(self).wf(),
            if pos < old(self)@.list_len(name@) {
                change_outcome(old(self)@, old(self)@.lpop(name@, pos as int), now, final(self)@, r)
            } else {
                no_change(old(self)@, final(self)@, r)
            },
            r matches Ok(c) ==> if pos < old(self)@.list_len(name@) {
                c.result matches Some(v) && v@ == old(self)@.lists[name@][pos as int]
            } else {
                c.result is None
            },
    {
        let ghost pre = self@;
        let ghost start = *self;
        match self.list_position(name) {
            Some(i) => {
                if pos < self.list_map[i].1.len() {
                    let item = self.list_map[i].1.remove(pos);
                    let undo = Undo::Reinsert {
                        name: name.to_owned(),
                        pos,
                        item: slice_to_vec(item.as_slice()),
                    };
                    proof {
                        let before = pre.lists[name@];
                        let after = before.remove(pos as int);
                        lemma_items_view(start.list_map[i as int].1);
                        lemma_items_view(self.list_map[i as int].1);
                        assert(self.list_map[i as int].1.deep_view() =~= after);
                        assert(self.list_map.deep_view() =~= start.list_map.deep_view().update(
                            i as int,
                            (start.list_map.deep_view()[i as int].0, after),
                        ));
                        lemma_list_replaced(start, *self, i as int, after);
                        assert(after.insert(pos as int, item@) =~= before);
                        lemma_list_restored(pre, name@, after);
                    }
                    self.settle(Some(item), undo, now, Ghost(pre))
                } else {
                    Ok(Change { result: None, dump: None })
                }
            },
            None => Ok(Change { result: None, dump: None }),
        }
    }

    /// Takes out of a list the first item whose stored bytes equal `value`, and reports
    /// whether there was one.
    ///
    /// For a name that is no list and for a list without such an item, nothing changes and
    /// nothing is written.
    pub fn lrem_value(&mut self, name: &str, value: &[u8], now: u128) -> (r: Result<Change<bool>>)
        requires
            old(self).wf(),
        ensures
            final(self).wf(),
            if old(self)@.lists.contains_key(name@) && old(self)@.lists[name@].contains(value@) {
                change_outcome(
                    old(self)@,
                    old(self)@.lrem_value(name@, value@),
                    now,
                    final(self)@,
                    r,
                )
            } else {
                no_change(old(self)@, final(self)@, r)
            },
            r matches Ok(c) ==> c.result == (old(self)@.lists.contains_key(name@)
                && old(self)@.lists[name@].contains(value@)),
    {
        let ghost pre = self@;
        let ghost start = *self;
        match self.list_position(name) {
            Some(i) => {
                let ghost before = pre.lists[name@];
                proof {
                    lemma_items_view(self.list_map[i as int].1);
                    before.index_of_first_ensures(value@);
                }
                let mut pos: usize = 0;
                while pos < self.list_map[i].1.len() && !bytes_eq(
                    self.list_map[i].1[pos].as_slice(),
                    value,
                )
                    invariant
                        i < self.list_map.len(),
                        pos <= self.list_map[i as int].1.len(),
                        before.len() == self.list_map[i as int].1.len(),
                        forall|j: int|
                            0 <= j < before.len() ==> #[trigger] before[j]
                                == self.list_map[i as int].1[j]@,
                        forall|j: int| 0 <= j < pos ==> before[j] != value@,
                    decreases self.list_map[i as int].1.len() - pos,
                {
                    pos += 1;
                }
                if pos < self.list_map[i].1.len() {
                    let item = self.list_map[i].1.remove(pos);
                    let undo = Undo::Reinsert { name: name.to_owned(), pos, item };
                    proof {
                        assert(before[pos as int] == value@);
                        assert(before.index_of_first(value@) == Some(pos as int));
                        let after = before.remove(pos as int);
                        lemma_items_view(start.list_map[i as int].1);
                        lemma_items_view(self.list_map[i as int].1);
                        assert(self.list_map[i as int].1.deep_view() =~= after);
                        assert(self.list_map.deep_view() =~= start.list_map.deep_view().update(
                            i as int,
                            (start.list_map.deep_view()[i as int].0, after),
                        ));
                        lemma_list_replaced(start, *self, i as int, after);
                        assert(after.insert(pos as int, item@) =~= before);
                        lemma_list_restored(pre, name@, after);
                    }
                    self.settle(true, undo, now, Ghost(pre))
                } else {
                    proof {
                        assert(!before.contains(value@));
                    }
                    Ok(Change { result: false, dump: None })
                }
            },
            None => Ok(Change { result: false, dump: None }),
        }
    }

    /// Removes a list and gives the number of items that it had; zero for a name that is no
    /// list, for which nothing changes and nothing is written.
    pub fn lrem_list(&mut self, name: &str, now: u128) -> (r: Result<Change<usize>>)
        requires
            old(self).wf(),
        ensures
            final(self).wf(),
            if old(self)@.lists.contains_key(name@) {
                change_outcome(old(self)@, old(self)@.lrem_list(name@), now, final(self)@, r)
            } else {
                no_change(old(self)@, final(self)@, r)
            },
            r matches Ok(c) ==> c.result == old(self)@.list_len(name@),
    {
        let ghost pre = self@;
        match self.list_position(name) {
            Some(i) => {
                let pair = remove_at(&mut self.list_map, i);
                let res = pair.1.len();
                let undo = Undo::PutList { name: name.to_owned(), items: pair.1 };
                proof {
                    assert(self@.with_list(name@, pair.1.deep_view()).lists =~= pre.lists);
                }
                self.settle(res, undo, now, Ghost(pre))
            },
            None => Ok(Change { result: 0, dump: None }),
        }
    }
}

impl PickleDb {
    /// The file to write after a change made at `now`: the store's content where the policy
    /// asks for a dump at once, `None` where it does not. The store itself is not changed;
    /// [`PickleDb::dump_succeeded`] records a write.
    pub fn dumpdb(&self, now: u128) -> (r: Result<Option<DumpFile>>)
        requires
            self.wf(),
        ensures
            if !self@.dump_due(now) {
                r matches Ok(None)
            } else {
                match self@.encoding() {
                    Ok(content) => r matches Ok(Some(file)) && file.is_dump_of(
                        self@,
                        content,
                        now,
                    ),
                    Err(msg) => r matches Err(e) && e.is_serialization(msg),
                }
            },
    {
        if self.dump_is_due(now) {
            match self.serializer.serialize_db(&self.map, &self.list_map) {
                Ok(content) => Ok(Some(self.dump_file(content, now))),
                Err(msg) => Err(Error::new(ErrorCode::Serialization(msg))),
            }
        } else {
            Ok(None)
        }
    }

    /// The file to write for an explicit dump at `now`; `None` under the policy that never
    /// dumps.
    ///
    /// The caller writes the file and then reports a success with
    /// [`PickleDb::dump_succeeded`].
    pub fn dump(&self, now: u128) -> (r: Result<Option<DumpFile>>)
        requires
            self.wf(),
        ensures
            match self@.policy {
                PickleDbDumpPolicy::NeverDump => r matches Ok(None),
                _ => match self@.encoding() {
                    Ok(content) => r matches Ok(Some(file)) && file.is_dump_of(
                        self@,
                        content,
                        now,
                    ),
                    Err(msg) => r matches Err(e) && e.is_serialization(msg),
                },
            },
    {
        if let PickleDbDumpPolicy::NeverDump = self.dump_policy {
            return Ok(None);
        }
        match self.serializer.serialize_db(&self.map, &self.list_map) {
            Ok(content) => Ok(Some(self.dump_file(content, now))),
            Err(msg) => Err(Error::new(ErrorCode::Serialization(msg))),
        }
    }

    /// Records that a dump made at `now` has reached the file.
    pub fn dump_succeeded(&mut self, now: u128)
        requires
            old(self).wf(),
        ensures
            final(self).wf(),
            final(self)@ == old(self)@.dumped(now),
    {
        if let PickleDbDumpPolicy::PeriodicDump(_) = self.dump_policy {
            self.last_dump = now;
        }
    }

    /// Records that the dump which a change asked for did not reach the file: takes the
    /// change back and gives the error to report, which holds the cause.
    pub fn dump_failed(&mut self, undo: Undo, cause: std::io::Error) -> (e: Error)
        requires
            old(self).wf(),
        ensures
            final(self).wf(),
            final(self)@ == undo@.revert(old(self)@),
            e.is_io(cause),
    {
        self.revert(undo);
        Error::new(ErrorCode::Io(cause))
    }

    /// Ends the use of the store: gives the file for a last dump under the policies that
    /// dump after changes, and nothing under the other two or where the store cannot be
    /// encoded.
    pub fn close(self, now: u128) -> (file: Option<DumpFile>)
        requires
            self.wf(),
        ensures
            match self@.policy {
                PickleDbDumpPolicy::NeverDump => file is None,
                PickleDbDumpPolicy::DumpUponRequest => file is None,
                _ => match self@.encoding() {
                    Ok(content) => file matches Some(f) && f.is_dump_of(self@, content, now),
                    Err(_) => file is None,
                },
            },
    {
        match self.dump_policy {
            PickleDbDumpPolicy::NeverDump => None,
            PickleDbDumpPolicy::DumpUponRequest => None,
            _ => match self.dump(now) {
                Ok(file) => file,
                Err(_) => None,
            },
        }
    }
}

impl PickleDb {
    /// Where the list of that name stands among the lists.
    fn list_position(&self, name: &str) -> (at: Option<usize>)
        requires
            self.wf(),
        ensures
            match at {
                Some(i) => i < self.list_map.len() && self.list_map.deep_view()[i as int].0
                    == name@ && self@.lists.contains_key(name@) && self@.lists[name@]
                    == self.list_map.deep_view()[i as int].1 && self.list_map[i as int].1.deep_view()
                    == self@.lists[name@],
                None => !self@.lists.contains_key(name@),
            },
    {
        let at = find(&self.list_map, name);
        proof {
            if let Some(i) = at {
                self.lemma_entries();
                lemma_entry(self.list_map.deep_view(), i as int);
            }
        }
        at
    }

    /// Takes out what the key names, and leaves the key naming nothing.
    fn take_slot(&mut self, key: &str) -> (slot: Slot)
        requires
            old(self).wf(),
        ensures
            final(self).wf(),
            slot@ == old(self)@.slot(key@),
            final(self)@ == old(self)@.with_slot(key@, SlotView::vacant()),
    {
        let ghost m = self.map.deep_view();
        let ghost l = self.list_map.deep_view();
        proof {
            self.lemma_entries();
        }
        let value = match find(&self.map, key) {
            Some(i) => {
                proof {
                    lemma_entry(m, i as int);
                }
                let pair = remove_at(&mut self.map, i);
                proof {
                    lemma_bytes_view(pair.1);
                }
                Some(pair.1)
            },
            None => {
                proof {
                    assert(as_map(m).remove(key@) =~= as_map(m));
                }
                None
            },
        };
        let list = match find(&self.list_map, key) {
            Some(i) => {
                proof {
                    lemma_entry(l, i as int);
                }
                let pair = remove_at(&mut self.list_map, i);
                Some(pair.1)
            },
            None => {
                proof {
                    assert(as_map(l).remove(key@) =~= as_map(l));
                }
                None
            },
        };
        Slot { value, list }
    }

    /// Lets the key name the value, whatever value it named before.
    fn put_value(&mut self, key: String, value: Vec<u8>)
        requires
            old(self).wf(),
        ensures
            final(self).wf(),
            final(self)@ == (DbView {
                scalars: old(self)@.scalars.insert(key@, value@),
                ..old(self)@
            }),
    {
        let ghost m = self.map.deep_view();
        proof {
            lemma_bytes_view(value);
        }
        match search(&self.map, key.as_str()) {
            Err(p) => {
                insert_at(&mut self.map, p, key, value);
            },
            Ok(i) => {
                let _ = remove_at(&mut self.map, i);
                match search(&self.map, key.as_str()) {
                    Err(p) => {
                        insert_at(&mut self.map, p, key, value);
                    },
                    Ok(_) => {},
                }
                proof {
                    assert(as_map(m).remove(key@).insert(key@, value@) =~= as_map(m).insert(
                        key@,
                        value@,
                    ));
                }
            },
        }
    }

    /// Lets the name be the list of these items, whatever list it was before.
    fn put_list(&mut self, name: String, items: Vec<Vec<u8>>)
        requires
            old(self).wf(),
        ensures
            final(self).wf(),
            final(self)@ == old(self)@.with_list(name@, items.deep_view()),
    {
        let ghost l = self.list_map.deep_view();
        match search(&self.list_map, name.as_str()) {
            Err(p) => {
                insert_at(&mut self.list_map, p, name, items);
            },
            Ok(i) => {
                let _ = remove_at(&mut self.list_map, i);
                match search(&self.list_map, name.as_str()) {
                    Err(p) => {
                        insert_at(&mut self.list_map, p, name, items);
                    },
                    Ok(_) => {},
                }
                proof {
                    assert(as_map(l).remove(name@).insert(name@, items.deep_view()) =~= as_map(
                        l,
                    ).insert(name@, items.deep_view()));
                }
            },
        }
    }

    /// Lets a key that names nothing name `slot`.
    fn put_slot(&mut self, key: String, slot: Slot)
        requires
            old(self).wf(),
            old(self)@.slot(key@).is_vacant(),
        ensures
            final(self).wf(),
            final(self)@ == old(self)@.with_slot(key@, slot@),
    {
        proof {
            assert(old(self)@.scalars.remove(key@) =~= old(self)@.scalars);
            assert(old(self)@.lists.remove(key@) =~= old(self)@.lists);
        }
        let Slot { value, list } = slot;
        match value {
            Some(v) => match list {
                Some(items) => {
                    self.put_value(key.clone(), v);
                    self.put_list(key, items);
                },
                None => {
                    self.put_value(key, v);
                },
            },
            None => match list {
                Some(items) => {
                    self.put_list(key, items);
                },
                None => {},
            },
        }
    }

    /// Takes a change back.
    fn revert(&mut self, undo: Undo)
        requires
            old(self).wf(),
        ensures
            final(self).wf(),
            final(self)@ == undo@.revert(old(self)@),
    {
        let ghost pre = *self;
        match undo {
            Undo::Restore { key, slot } => {
                let _ = self.take_slot(key.as_str());
                self.put_slot(key, slot);
                proof {
                    lemma_with_slot_twice(pre@, key@, SlotView::vacant(), slot@);
                }
            },
            Undo::PutList { name, items } => {
                self.put_list(name, items);
            },
            Undo::Truncate { name, len } => {
                match self.list_position(name.as_str()) {
                    Some(i) => {
                        if len <= self.list_map[i].1.len() {
                            self.list_map[i].1.truncate(len);
                            proof {
                                let items = pre.list_map.deep_view()[i as int].1.take(len as int);
                                assert(self.list_map[i as int].1.deep_view() =~= items);
                                assert(self.list_map.deep_view() =~= pre.list_map.deep_view().update(
                                    i as int,
                                    (pre.list_map.deep_view()[i as int].0, items),
                                ));
                                lemma_list_replaced(pre, *self, i as int, items);
                            }
                        }
                    },
                    None => {},
                }
            },
            Undo::Reinsert { name, pos, item } => {
                match self.list_position(name.as_str()) {
                    Some(i) => {
                        if pos <= self.list_map[i].1.len() {
                            self.list_map[i].1.insert(pos, item);
                            proof {
                                let items = pre.list_map.deep_view()[i as int].1.insert(
                                    pos as int,
                                    item@,
                                );
                                lemma_items_view(pre.list_map[i as int].1);
                                lemma_items_view(self.list_map[i as int].1);
                                assert(self.list_map[i as int].1.deep_view() =~= items);
                                assert(self.list_map.deep_view() =~= pre.list_map.deep_view().update(
                                    i as int,
                                    (pre.list_map.deep_view()[i as int].0, items),
                                ));
                                lemma_list_replaced(pre, *self, i as int, items);
                            }
                        }
                    },
                    None => {},
                }
            },
        }
    }

    /// Whether the policy asks for a dump after a change made at `now`.
    fn dump_is_due(&self, now: u128) -> (due: bool)
        ensures
            due == self@.dump_due(now),
    {
        match self.dump_policy {
            PickleDbDumpPolicy::AutoDump => true,
            PickleDbDumpPolicy::PeriodicDump(interval) => now.saturating_sub(self.last_dump)
                >= interval,
            _ => false,
        }
    }

    /// The file that a dump at `now` writes, given the encoded store.
    fn dump_file(&self, content: Vec<u8>, now: u128) -> (file: DumpFile)
        ensures
            file.is_dump_of(self@, content@, now),
    {
        let mut temp_path = self.db_file_path.clone();
        temp_path.append(".temp.");
        temp_path.append(decimal_text(now / NANOS_PER_SEC).as_str());
        DumpFile { temp_path, db_path: self.db_file_path.clone(), content }
    }

    /// Ends an operation that has changed the store: asks for a dump where the policy wants
    /// one, and takes the change back where the store cannot be encoded.
    fn settle<T>(&mut self, result: T, undo: Undo, now: u128, Ghost(pre): Ghost<DbView>) -> (r:
        Result<Change<T>>)
        requires
            old(self).wf(),
            undo@.revert(old(self)@) == pre,
        ensures
            final(self).wf(),
            change_outcome(pre, old(self)@, now, final(self)@, r),
            r matches Ok(c) ==> c.result == result,
    {
        match self.dumpdb(now) {
            Ok(Some(file)) => Ok(Change { result, dump: Some(PendingDump { file, undo }) }),
            Ok(None) => Ok(Change { result, dump: None }),
            Err(e) => {
                self.revert(undo);
                Err(e)
            },
        }
    }
}

/// A well-formed store stays so when one list gets other items, and only that list changes.
proof fn lemma_list_replaced(pre: PickleDb, post: PickleDb, i: int, items: Seq<Seq<u8>>)
    requires
        pre.wf(),
        0 <= i < pre.list_map.len(),
        post.map == pre.map,
        post.serializer == pre.serializer,
        post.db_file_path == pre.db_file_path,
        post.dump_policy == pre.dump_policy,
        post.last_dump == pre.last_dump,
        post.list_map.deep_view() == pre.list_map.deep_view().update(
            i,
            (pre.list_map.deep_view()[i].0, items),
        ),
    ensures
        post.wf(),
        post@ == pre@.with_list(pre.list_map.deep_view()[i].0, items),
{
    let l = pre.list_map.deep_view();
    lemma_sorted_distinct(l);
    lemma_sorted_replace(l, i, items);
    lemma_replace(l, i, items);
}

} // verus!

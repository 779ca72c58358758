//! The store as mathematics: the two maps, what each operation makes of them, when a dump
//! is due, and how a change is taken back.

use vstd::prelude::*;
use crate::assoc::Key;
use crate::pickledb::PickleDbDumpPolicy;
use crate::serialization::{db_encoding, Lists, Scalars, SerializationMethod};

verus! {

/// What a key names, as mathematics: a value, a list, neither, or, in a store loaded from a
/// file that gives the name both, a value and a list.
pub struct SlotView {
    /// The stored bytes of the value that the key names, if it names one.
    pub value: Option<Seq<u8>>,
    /// The items of the list that the key names, if it names one.
    pub list: Option<Seq<Seq<u8>>>,
}

impl SlotView {
    /// The key names nothing.
    pub open spec fn vacant() -> SlotView {
        SlotView { value: None, list: None }
    }

    /// The key names a value and no list.
    pub open spec fn of_value(v: Seq<u8>) -> SlotView {
        SlotView { value: Some(v), list: None }
    }

    /// The key names a list and no value.
    pub open spec fn of_list(l: Seq<Seq<u8>>) -> SlotView {
        SlotView { value: None, list: Some(l) }
    }

    /// The key names nothing.
    pub open spec fn is_vacant(self) -> bool {
        self.value is None && self.list is None
    }
}

/// The store as mathematics: its two maps and its settings.
pub struct DbView {
    /// The value of each key.
    pub scalars: Scalars,
    /// The items of each list, by the list's name.
    pub lists: Lists,
    /// The path of the file.
    pub path: Seq<char>,
    /// The dump policy.
    pub policy: PickleDbDumpPolicy,
    /// The serialization method.
    pub method: SerializationMethod,
    /// The time of the last dump, or of the store's creation if there was none.
    pub last_dump: u128,
}

/// The number of nanoseconds in a second.
pub const NANOS_PER_SEC: u128 = 1_000_000_000;

/// The character of a decimal digit.
pub open spec fn digit(d: nat) -> char {
    if d == 0 {
        '0'
    } else if d == 1 {
        '1'
    } else if d == 2 {
        '2'
    } else if d == 3 {
        '3'
    } else if d == 4 {
        '4'
    } else if d == 5 {
        '5'
    } else if d == 6 {
        '6'
    } else if d == 7 {
        '7'
    } else if d == 8 {
        '8'
    } else {
        '9'
    }
}

/// The decimal digits of a number, without leading zeros.
pub open spec fn decimal(n: nat) -> Seq<char>
    decreases n,
{
    if n < 10 {
        seq![digit(n)]
    } else {
        decimal(n / 10).push(digit(n % 10))
    }
}

/// The path of the temporary file that a dump at time `now` writes before it replaces the
/// file at `path`: the path, `.temp.` and the time in whole seconds.
pub open spec fn temp_path_at(path: Seq<char>, now: u128) -> Seq<char> {
    path + ".temp."@ + decimal((now / NANOS_PER_SEC) as nat)
}

impl DbView {
    /// No key names both a value and a list, and the keys are finitely many.
    pub open spec fn partitioned(self) -> bool {
        &&& self.scalars.dom().finite()
        &&& self.lists.dom().finite()
        &&& forall|k: Key| !(self.scalars.contains_key(k) && self.lists.contains_key(k))
    }

    /// The two stores are for the same file, with the same policy and method, and have the
    /// same time of last dump.
    pub open spec fn same_settings(self, other: DbView) -> bool {
        &&& self.path == other.path
        &&& self.policy == other.policy
        &&& self.method == other.method
        &&& self.last_dump == other.last_dump
    }

    /// What the key names.
    pub open spec fn slot(self, k: Key) -> SlotView {
        SlotView {
            value: if self.scalars.contains_key(k) {
                Some(self.scalars[k])
            } else {
                None
            },
            list: if self.lists.contains_key(k) {
                Some(self.lists[k])
            } else {
                None
            },
        }
    }

    /// The store in which the key names `slot` and every other key names what it did.
    pub open spec fn with_slot(self, k: Key, slot: SlotView) -> DbView {
        DbView {
            scalars: match slot.value {
                Some(v) => self.scalars.insert(k, v),
                None => self.scalars.remove(k),
            },
            lists: match slot.list {
                Some(l) => self.lists.insert(k, l),
                None => self.lists.remove(k),
            },
            ..self
        }
    }

    /// The store in which the list of that name has these items and all else is as it was.
    pub open spec fn with_list(self, name: Key, items: Seq<Seq<u8>>) -> DbView {
        DbView { lists: self.lists.insert(name, items), ..self }
    }

    /// The store with another time of last dump.
    pub open spec fn with_last_dump(self, now: u128) -> DbView {
        DbView { last_dump: now, ..self }
    }

    /// The number of items of the list, zero for a name that is no list.
    pub open spec fn list_len(self, name: Key) -> nat {
        if self.lists.contains_key(name) {
            self.lists[name].len()
        } else {
            0
        }
    }

    /// The store after `set`: the key names the value, and no list.
    pub open spec fn set(self, k: Key, v: Seq<u8>) -> DbView {
        self.with_slot(k, SlotView::of_value(v))
    }

    /// The store after `rem`: the key names nothing.
    pub open spec fn rem(self, k: Key) -> DbView {
        self.with_slot(k, SlotView::vacant())
    }

    /// The store after `lcreate`: the name is an empty list, and no value.
    pub open spec fn lcreate(self, name: Key) -> DbView {
        self.with_slot(name, SlotView::of_list(Seq::empty()))
    }

    /// The store after `lextend`: the items are at the end of the list; unchanged where the
    /// name is no list.
    pub open spec fn lextend(self, name: Key, items: Seq<Seq<u8>>) -> DbView {
        if self.lists.contains_key(name) {
            self.with_list(name, self.lists[name] + items)
        } else {
            self
        }
    }

    /// The store after `lpop`: the list is without its item at `pos`; unchanged where the
    /// name is no list or has no such item.
    pub open spec fn lpop(self, name: Key, pos: int) -> DbView {
        if self.lists.contains_key(name) && 0 <= pos < self.lists[name].len() {
            self.with_list(name, self.lists[name].remove(pos))
        } else {
            self
        }
    }

    /// The store after `lrem_value`: the list is without the first of its items that equals
    /// `value`; unchanged where the name is no list or has no such item.
    pub open spec fn lrem_value(self, name: Key, value: Seq<u8>) -> DbView {
        if self.lists.contains_key(name) {
            self.lpop(name, self.lists[name].index_of_first(value).unwrap_or(-1))
        } else {
            self
        }
    }

    /// The store after `lrem_list`: the name is no list. A value of that name stays.
    pub open spec fn lrem_list(self, name: Key) -> DbView {
        DbView { lists: self.lists.remove(name), ..self }
    }

    /// The time that has passed at `now` since the last dump; zero where the clock went back.
    pub open spec fn elapsed(self, now: u128) -> int {
        if now >= self.last_dump {
            now - self.last_dump
        } else {
            0
        }
    }

    /// Whether a change made at `now` is to be written to the file at once.
    pub open spec fn dump_due(self, now: u128) -> bool {
        match self.policy {
            PickleDbDumpPolicy::AutoDump => true,
            PickleDbDumpPolicy::PeriodicDump(interval) => self.elapsed(now) >= interval,
            PickleDbDumpPolicy::NeverDump => false,
            PickleDbDumpPolicy::DumpUponRequest => false,
        }
    }

    /// The store without keys, as `new` makes it.
    pub open spec fn empty(
        path: Seq<char>,
        policy: PickleDbDumpPolicy,
        method: SerializationMethod,
        now: u128,
    ) -> DbView {
        DbView {
            scalars: Map::empty(),
            lists: Map::empty(),
            path,
            policy,
            method,
            last_dump: now,
        }
    }

    /// The store that `load` makes of a decoded file: its two maps are the decoded ones.
    pub open spec fn loaded(
        decoded: (Scalars, Lists),
        path: Seq<char>,
        policy: PickleDbDumpPolicy,
        method: SerializationMethod,
        now: u128,
    ) -> DbView {
        DbView {
            scalars: decoded.0,
            lists: decoded.1,
            path,
            policy,
            method,
            last_dump: now,
        }
    }

    /// The store after a dump at `now` that reached the file.
    pub open spec fn dumped(self, now: u128) -> DbView {
        match self.policy {
            PickleDbDumpPolicy::PeriodicDump(_) => self.with_last_dump(now),
            _ => self,
        }
    }

    /// The content of the file for this store, or the message of the error with which
    /// encoding it fails.
    pub open spec fn encoding(self) -> std::result::Result<Seq<u8>, Seq<char>> {
        db_encoding(self.method, self.scalars, self.lists)
    }
}

/// How to take back a change, as mathematics.
pub enum UndoView {
    /// Let the key name again what it named before.
    Restore { key: Key, slot: SlotView },
    /// Let the name be again the list that it was.
    PutList { name: Key, items: Seq<Seq<u8>> },
    /// Cut the list back to its first `len` items.
    Truncate { name: Key, len: nat },
    /// Put the item back into the list at `pos`.
    Reinsert { name: Key, pos: nat, item: Seq<u8> },
}

impl UndoView {
    /// The store `db` with the change taken back.
    pub open spec fn revert(self, db: DbView) -> DbView {
        match self {
            UndoView::Restore { key, slot } => db.with_slot(key, slot),
            UndoView::PutList { name, items } => db.with_list(name, items),
            UndoView::Truncate { name, len } => if db.lists.contains_key(name) && len
                <= db.lists[name].len() {
                db.with_list(name, db.lists[name].take(len as int))
            } else {
                db
            },
            UndoView::Reinsert { name, pos, item } => if db.lists.contains_key(name) && pos
                <= db.lists[name].len() {
                db.with_list(name, db.lists[name].insert(pos as int, item))
            } else {
                db
            },
        }
    }
}

/// What a key names after it was given a slot is that slot, whatever it named before.
pub proof fn lemma_with_slot_twice(db: DbView, k: Key, a: SlotView, b: SlotView)
    ensures
        db.with_slot(k, a).with_slot(k, b) == db.with_slot(k, b),
{
    assert(db.with_slot(k, a).with_slot(k, b).scalars =~= db.with_slot(k, b).scalars);
    assert(db.with_slot(k, a).with_slot(k, b).lists =~= db.with_slot(k, b).lists);
}

/// Giving a key the slot that it has changes nothing.
pub proof fn lemma_with_own_slot(db: DbView, k: Key)
    ensures
        db.with_slot(k, db.slot(k)) == db,
{
    assert(db.with_slot(k, db.slot(k)).scalars =~= db.scalars);
    assert(db.with_slot(k, db.slot(k)).lists =~= db.lists);
}

/// Giving a key a slot and then back the slot that it had leads back to the store.
pub proof fn lemma_slot_restored(db: DbView, k: Key, slot: SlotView)
    ensures
        db.with_slot(k, slot).with_slot(k, db.slot(k)) == db,
{
    lemma_with_slot_twice(db, k, slot, db.slot(k));
    lemma_with_own_slot(db, k);
}

/// Giving a list other items and then back the items that it had leads back to the store.
pub proof fn lemma_list_restored(db: DbView, name: Key, items: Seq<Seq<u8>>)
    requires
        db.lists.contains_key(name),
    ensures
        db.with_list(name, items).with_list(name, db.lists[name]) == db,
{
    assert(db.with_list(name, items).with_list(name, db.lists[name]).lists =~= db.lists);
}

} // verus!

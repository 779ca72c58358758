//! What holds of the store whatever its content: stated over the store as mathematics, and
//! proved from the definitions of its operations.

use vstd::prelude::*;
use crate::assoc::Key;
use crate::error::Result;
use crate::model::{lemma_with_slot_twice, DbView, SlotView, UndoView};
use crate::pickledb::{change_outcome, Change, PickleDb, PickleDbDumpPolicy};
use crate::serialization::{codec_reads_back, db_decoding, lemma_decoding_of_encoding, SerializationMethod};

verus! {

/// A store in which no key names both a value and a list stays such a store when a key is
/// made to name a value, a list or nothing.
pub proof fn lemma_slot_keeps_partition(db: DbView, k: Key, slot: SlotView)
    requires
        db.partitioned(),
        slot.value is None || slot.list is None,
    ensures
        db.with_slot(k, slot).partitioned(),
        db.with_slot(k, slot).slot(k) == slot,
        forall|q: Key| q != k ==> #[trigger] db.with_slot(k, slot).slot(q) == db.slot(q),
{
}

/// A store in which no key names both a value and a list stays such a store under every
/// operation.
pub proof fn lemma_operations_keep_partition(
    db: DbView,
    k: Key,
    value: Seq<u8>,
    items: Seq<Seq<u8>>,
    pos: int,
)
    requires
        db.partitioned(),
    ensures
        db.set(k, value).partitioned(),
        db.rem(k).partitioned(),
        db.lcreate(k).partitioned(),
        db.lextend(k, items).partitioned(),
        db.lpop(k, pos).partitioned(),
        db.lrem_value(k, value).partitioned(),
        db.lrem_list(k).partitioned(),
{
}

/// A new store has no key, so none that names both a value and a list; and a loaded store
/// has such a key exactly where the file gives one name both.
pub proof fn lemma_partition_at_start(
    decoded: (Map<Key, Seq<u8>>, Map<Key, Seq<Seq<u8>>>),
    path: Seq<char>,
    policy: PickleDbDumpPolicy,
    method: SerializationMethod,
    now: u128,
)
    requires
        decoded.0.dom().finite(),
        decoded.1.dom().finite(),
    ensures
        DbView::empty(path, policy, method, now).partitioned(),
        DbView::loaded(decoded, path, policy, method, now).partitioned() <==> decoded.0.dom().disjoint(
            decoded.1.dom(),
        ),
{
    let db = DbView::loaded(decoded, path, policy, method, now);
    if db.partitioned() {
        assert forall|k: Key| !(decoded.0.dom().contains(k) && decoded.1.dom().contains(k)) by {
            assert(!(db.scalars.contains_key(k) && db.lists.contains_key(k)));
        }
    }
}

/// The last of `set` and `lcreate` decides what a name is. After `set` and then `lcreate`
/// the name is an empty list and has no value; after `lcreate` and then `set` it has the
/// value and is no list.
pub proof fn lemma_namespace_partition(db: DbView, k: Key, value: Seq<u8>)
    ensures
        db.set(k, value).lcreate(k).lists.contains_key(k),
        db.set(k, value).lcreate(k).lists[k] == Seq::<Seq<u8>>::empty(),
        !db.set(k, value).lcreate(k).scalars.contains_key(k),
        db.lcreate(k).set(k, value).scalars.contains_key(k),
        db.lcreate(k).set(k, value).scalars[k] == value,
        !db.lcreate(k).set(k, value).lists.contains_key(k),
{
}

/// Setting a key twice leaves the second value.
pub proof fn lemma_set_overwrites(db: DbView, k: Key, first: Seq<u8>, second: Seq<u8>)
    ensures
        db.set(k, first).set(k, second) == db.set(k, second),
{
    lemma_with_slot_twice(db, k, SlotView::of_value(first), SlotView::of_value(second));
}

/// Under the policy that dumps after every change, an operation that changes the store
/// either asks for exactly one file, whose content is the encoding of the store after the
/// change, or fails because that store cannot be encoded and leaves the store as it was.
pub proof fn lemma_auto_dump_writes_every_change<T>(
    pre: DbView,
    post: DbView,
    now: u128,
    fin: DbView,
    r: Result<Change<T>>,
)
    requires
        post.policy is AutoDump,
        change_outcome(pre, post, now, fin, r),
    ensures
        match r {
            Ok(c) => fin == post && (c.dump matches Some(p) && post.encoding() == Ok::<
                Seq<u8>,
                Seq<char>,
            >(p.file.content@)),
            Err(_) => fin == pre && post.encoding() is Err,
        },
{
}

/// Under the policies that dump never or only on request, no operation asks for a file.
pub proof fn lemma_quiet_policies_write_nothing<T>(
    pre: DbView,
    post: DbView,
    now: u128,
    fin: DbView,
    r: Result<Change<T>>,
)
    requires
        post.policy is NeverDump || post.policy is DumpUponRequest,
        change_outcome(pre, post, now, fin, r),
    ensures
        fin == post,
        r matches Ok(c) && c.dump is None,
{
}

/// Under the periodic policy, after a dump at `t1` a change at a later time `t2` is written
/// if and only if the interval has passed since `t1`.
pub proof fn lemma_periodic_deferral(db: DbView, interval: u128, t1: u128, t2: u128)
    requires
        db.policy == PickleDbDumpPolicy::PeriodicDump(interval),
        t1 <= t2,
    ensures
        t2 - t1 < interval ==> !db.dumped(t1).dump_due(t2),
        t2 - t1 >= interval ==> db.dumped(t1).dump_due(t2),
{
}

/// No operation changes the file's path, the policy or the method, and none but a dump that
/// reached the file moves the time of the last dump: the interval of the periodic policy
/// runs from the last dump, not from the last change.
pub proof fn lemma_operations_keep_settings(
    db: DbView,
    k: Key,
    value: Seq<u8>,
    items: Seq<Seq<u8>>,
    pos: int,
    undo: UndoView,
)
    ensures
        db.set(k, value).same_settings(db),
        db.rem(k).same_settings(db),
        db.lcreate(k).same_settings(db),
        db.lextend(k, items).same_settings(db),
        db.lpop(k, pos).same_settings(db),
        db.lrem_value(k, value).same_settings(db),
        db.lrem_list(k).same_settings(db),
        undo.revert(db).same_settings(db),
{
}

/// An operation whose dump fails leaves the store as it was before the operation: where
/// the store cannot be encoded it is already so, and where the file cannot be written the
/// undo that came with the file leads back.
pub proof fn lemma_failed_dump_restores<T>(
    pre: DbView,
    post: DbView,
    now: u128,
    fin: DbView,
    r: Result<Change<T>>,
)
    requires
        change_outcome(pre, post, now, fin, r),
    ensures
        r is Err ==> fin == pre,
        r matches Ok(c) ==> (c.dump matches Some(p) ==> p.undo@.revert(fin) == pre),
{
}

/// A position at or beyond the length of a list names no item, and a name that is no list
/// has length zero.
pub proof fn lemma_list_index(db: DbView, name: Key, pos: int)
    ensures
        !db.lists.contains_key(name) ==> db.list_len(name) == 0,
        pos >= db.list_len(name) ==> db.lpop(name, pos) == db,
{
}

/// A store that is dumped and loaded again has the maps that it had, where the codec of its
/// method reads back the pairs that it writes: the keys, the stored bytes and the order of
/// every list are the same.
pub proof fn lemma_dump_then_load(db: &PickleDb, now: u128)
    requires
        db.wf(),
        codec_reads_back(db@.method, db.scalar_entries(), db.list_entries()),
    ensures
        db@.encoding() matches Ok(content) ==> (db_decoding(db@.method, content) matches Ok(
            decoded,
        ) && DbView::loaded(decoded, db@.path, db@.policy, db@.method, now) == db@.with_last_dump(
            now,
        )),
{
    db.lemma_entries();
    lemma_decoding_of_encoding(db@.method, db.scalar_entries(), db.list_entries());
}

} // verus!

//! Walks over the store: over the keys with their values, and over the items of a list.
//!
//! A walk hands out the stored bytes; decoding them is the caller's business.

use vstd::prelude::*;
use crate::assoc::Key;
use crate::serialization::DbMap;
use crate::text::{lemma_bytes_view, lemma_items_view};

verus! {

/// A walk over the keys that name a value. Returned by `PickleDb::iter`.
pub struct PickleDbIterator<'a> {
    map: &'a DbMap,
    pos: usize,
}

/// A key with its value, as a walk hands it out.
pub struct PickleDbIteratorItem<'a> {
    key: &'a str,
    value: &'a Vec<u8>,
}

/// A walk over the items of a list. Returned by `PickleDb::liter`.
pub struct PickleDbListIterator<'a> {
    list: Option<&'a Vec<Vec<u8>>>,
    pos: usize,
}

/// An item of a list, as a walk hands it out.
pub struct PickleDbListIteratorItem<'a> {
    value: &'a Vec<u8>,
}

impl<'a> PickleDbIterator<'a> {
    /// The pairs that the walk has yet to hand out, in order.
    pub closed spec fn remaining(&self) -> Seq<(Key, Seq<u8>)> {
        if self.pos <= self.map.len() {
            self.map.deep_view().subrange(self.pos as int, self.map.len() as int)
        } else {
            Seq::empty()
        }
    }

    pub(crate) fn over(map: &'a DbMap) -> (it: PickleDbIterator<'a>)
        ensures
            it.remaining() == map.deep_view(),
    {
        assert(map.deep_view().subrange(0, map.len() as int) =~= map.deep_view());
        PickleDbIterator { map, pos: 0 }
    }

    /// The next pair, if the walk has not reached the end.
    pub fn next(&mut self) -> (item: Option<PickleDbIteratorItem<'a>>)
        ensures
            match item {
                Some(e) => old(self).remaining().len() > 0 && (e.spec_key(), e.spec_value())
                    == old(self).remaining()[0] && final(self).remaining() == old(
                    self,
                ).remaining().drop_first(),
                None => old(self).remaining().len() == 0 && final(self).remaining() == old(
                    self,
                ).remaining(),
            },
    {
        if self.pos < self.map.len() {
            let pair = &self.map[self.pos];
            proof {
                lemma_bytes_view(pair.1);
                assert(self.map.deep_view()[self.pos as int] == (pair.0@, pair.1.deep_view()));
            }
            self.pos = self.pos + 1;
            proof {
                assert(self.remaining() =~= old(self).remaining().drop_first());
            }
            Some(PickleDbIteratorItem { key: pair.0.as_str(), value: &pair.1 })
        } else {
            None
        }
    }
}

impl<'a> PickleDbIteratorItem<'a> {
    /// The key, as mathematics.
    pub closed spec fn spec_key(&self) -> Key {
        self.key@
    }

    /// The stored bytes of the value, as mathematics.
    pub closed spec fn spec_value(&self) -> Seq<u8> {
        self.value@
    }

    /// The key.
    pub fn get_key(&self) -> (key: &'a str)
        ensures
            key@ == self.spec_key(),
    {
        self.key
    }

    /// The stored bytes of the value.
    pub fn get_value(&self) -> (value: &'a Vec<u8>)
        ensures
            value@ == self.spec_value(),
    {
        self.value
    }
}

impl<'a> PickleDbListIterator<'a> {
    /// The items that the walk has yet to hand out, in order.
    pub closed spec fn remaining(&self) -> Seq<Seq<u8>> {
        match self.list {
            Some(list) => if self.pos <= list.len() {
                list.deep_view().subrange(self.pos as int, list.len() as int)
            } else {
                Seq::empty()
            },
            None => Seq::empty(),
        }
    }

    pub(crate) fn over(list: Option<&'a Vec<Vec<u8>>>) -> (it: PickleDbListIterator<'a>)
        ensures
            it.remaining() == match list {
                Some(l) => l.deep_view(),
                None => Seq::empty(),
            },
    {
        proof {
            if let Some(l) = list {
                assert(l.deep_view().subrange(0, l.len() as int) =~= l.deep_view());
            }
        }
        PickleDbListIterator { list, pos: 0 }
    }

    /// The next item, if the walk has not reached the end.
    pub fn next(&mut self) -> (item: Option<PickleDbListIteratorItem<'a>>)
        ensures
            match item {
                Some(e) => old(self).remaining().len() > 0 && e.spec_item() == old(
                    self,
                ).remaining()[0] && final(self).remaining() == old(self).remaining().drop_first(),
                None => old(self).remaining().len() == 0 && final(self).remaining() == old(
                    self,
                ).remaining(),
            },
    {
        match self.list {
            Some(list) => {
                if self.pos < list.len() {
                    let value = &list[self.pos];
                    proof {
                        lemma_items_view(*list);
                    }
                    self.pos = self.pos + 1;
                    proof {
                        assert(self.remaining() =~= old(self).remaining().drop_first());
                    }
                    Some(PickleDbListIteratorItem { value })
                } else {
                    None
                }
            },
            None => None,
        }
    }
}

impl<'a> PickleDbListIteratorItem<'a> {
    /// The stored bytes of the item, as mathematics.
    pub closed spec fn spec_item(&self) -> Seq<u8> {
        self.value@
    }

    /// The stored bytes of the item.
    pub fn get_item(&self) -> (item: &'a Vec<u8>)
        ensures
            item@ == self.spec_item(),
    {
        self.value
    }
}

} // verus!

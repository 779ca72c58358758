//! The encodings of a whole database: one codec for each serialization method, and the
//! dispatcher that picks among them.
//!
//! A database is a pair of maps: from key to stored bytes, and from list name to a sequence of
//! stored bytes. The binary methods encode the pair as it is. The text methods first read every
//! stored byte string as UTF-8 text, and turn text back into bytes on the way in.

use std::collections::BTreeMap;
use vstd::prelude::*;
use vstd::string::StrSliceExecFns;
use vstd::utf8::{decode_utf8, encode_utf8, valid_utf8};
use crate::assoc::{as_map, canonical, index_of, lemma_canonical, lemma_entry, lemma_sorted_distinct, pairs_map, sorted, sorted_from, Key};
use crate::order::key_lt;
use crate::text::utf8_text;

verus! {

/// The key-value pairs of a database.
pub type DbMap = Vec<(String, Vec<u8>)>;

/// The lists of a database with their names.
pub type DbListMap = Vec<(String, Vec<Vec<u8>>)>;

/// The key-value map of a database, as mathematics.
pub type Scalars = Map<Key, Seq<u8>>;

/// The lists of a database by name, as mathematics.
pub type Lists = Map<Key, Seq<Seq<u8>>>;

/// Keys with stored bytes, in sequence.
pub type BytePairs = Seq<(Key, Seq<u8>)>;

/// Names with lists of stored bytes, in sequence.
pub type ByteListPairs = Seq<(Key, Seq<Seq<u8>>)>;

/// Keys with texts, in sequence.
pub type TextPairs = Seq<(Key, Seq<char>)>;

/// Names with lists of texts, in sequence.
pub type TextListPairs = Seq<(Key, Seq<Seq<char>>)>;

/// The serialization method of a database: how its content is laid out in its file.
#[derive(Debug, Clone, Copy)]
pub enum SerializationMethod {
    /// JSON text.
    Json,
    /// Bincode, a compact binary layout.
    Bin,
    /// YAML text.
    Yaml,
    /// CBOR, a self-describing binary layout.
    Cbor,
}

impl SerializationMethod {
    /// The method's name: `Json`, `Bin`, `Yaml` or `Cbor`.
    pub fn to_string(&self) -> (name: String)
        ensures
            name@ == match *self {
                SerializationMethod::Json => "Json"@,
                SerializationMethod::Bin => "Bin"@,
                SerializationMethod::Yaml => "Yaml"@,
                SerializationMethod::Cbor => "Cbor"@,
            },
    {
        match self {
            SerializationMethod::Json => "Json".to_owned(),
            SerializationMethod::Bin => "Bin".to_owned(),
            SerializationMethod::Yaml => "Yaml".to_owned(),
            SerializationMethod::Cbor => "Cbor".to_owned(),
        }
    }
}

impl From<i32> for SerializationMethod {
    /// The method with the given number, counting from zero in the order Json, Bin, Yaml, Cbor;
    /// Json for any other number.
    fn from(item: i32) -> (method: Self) {
        match item {
            0 => SerializationMethod::Json,
            1 => SerializationMethod::Bin,
            2 => SerializationMethod::Yaml,
            3 => SerializationMethod::Cbor,
            _ => SerializationMethod::Json,
        }
    }
}

impl vstd::std_specs::convert::FromSpecImpl<i32> for SerializationMethod {
    open spec fn obeys_from_spec() -> bool {
        true
    }

    open spec fn from_spec(item: i32) -> Self {
        if item == 1 {
            SerializationMethod::Bin
        } else if item == 2 {
            SerializationMethod::Yaml
        } else if item == 3 {
            SerializationMethod::Cbor
        } else {
            SerializationMethod::Json
        }
    }
}

/// The JSON text that `serde_json` writes for two sequences of pairs as two maps.
pub uninterp spec fn json_db_text(map: TextPairs, list_map: TextListPairs) -> Result<
    Seq<char>,
    Seq<char>,
>;

/// The pairs of the two maps that `serde_json` reads from a text, or its error message.
pub uninterp spec fn json_db_parsed(text: Seq<char>) -> Result<
    (TextPairs, TextListPairs),
    Seq<char>,
>;

/// The YAML text that `serde_yaml` writes for two sequences of pairs as two maps.
pub uninterp spec fn yaml_db_text(map: TextPairs, list_map: TextListPairs) -> Result<
    Seq<char>,
    Seq<char>,
>;

/// The pairs of the two maps that `serde_yaml` reads from a text, or its error message.
pub uninterp spec fn yaml_db_parsed(text: Seq<char>) -> Result<
    (TextPairs, TextListPairs),
    Seq<char>,
>;

/// The bytes that `bincode` writes for two sequences of pairs as two maps.
pub uninterp spec fn bincode_db_bytes(map: BytePairs, list_map: ByteListPairs) -> Result<
    Seq<u8>,
    Seq<char>,
>;

/// The pairs of the two maps that `bincode` reads from bytes, if it reads them.
pub uninterp spec fn bincode_db_parsed(bytes: Seq<u8>) -> Option<(BytePairs, ByteListPairs)>;

/// The bytes that `serde_cbor` writes for two sequences of pairs as two maps.
pub uninterp spec fn cbor_db_bytes(map: BytePairs, list_map: ByteListPairs) -> Result<
    Seq<u8>,
    Seq<char>,
>;

/// The pairs of the two maps that `serde_cbor` reads from bytes, if it reads them.
pub uninterp spec fn cbor_db_parsed(bytes: Seq<u8>) -> Option<(BytePairs, ByteListPairs)>;

/// The views of an outcome that is a text or an error message.
pub open spec fn text_outcome(r: Result<String, String>) -> Result<Seq<char>, Seq<char>> {
    match r {
        Ok(t) => Ok(t@),
        Err(e) => Err(e@),
    }
}

/// The views of an outcome that is a byte string or an error message.
pub open spec fn bytes_outcome(r: Result<Vec<u8>, String>) -> Result<Seq<u8>, Seq<char>> {
    match r {
        Ok(b) => Ok(b@),
        Err(e) => Err(e@),
    }
}

/// The views of an outcome that is two vectors of pairs with texts, or an error message.
pub open spec fn text_pairs_outcome(
    r: Result<(Vec<(String, String)>, Vec<(String, Vec<String>)>), String>,
) -> Result<(TextPairs, TextListPairs), Seq<char>> {
    match r {
        Ok(p) => Ok((p.0.deep_view(), p.1.deep_view())),
        Err(e) => Err(e@),
    }
}

/// The views of an outcome that is two vectors of pairs with stored bytes, or nothing.
pub open spec fn byte_pairs_outcome(r: Option<(DbMap, DbListMap)>) -> Option<
    (BytePairs, ByteListPairs),
> {
    match r {
        Some(p) => Some((p.0.deep_view(), p.1.deep_view())),
        None => None,
    }
}

/// Writes pairs with text values as JSON: an array of two objects.
///
/// Trusted: calls `serde_json::to_string` on the two sequences of pairs, each collected
/// into a `BTreeMap`, which keeps them in the order in which they come. The contract gives
/// the outcome a name and claims nothing more of it.
#[verifier::external_body]
fn json_to_string(map: &Vec<(&str, &str)>, list_map: &Vec<(&str, Vec<&str>)>) -> (r: Result<
    String,
    String,
>)
    requires
        sorted(map.deep_view()),
        sorted(list_map.deep_view()),
    ensures
        text_outcome(r) == json_db_text(map.deep_view(), list_map.deep_view()),
{
    let m: BTreeMap<&str, &str> = map.iter().copied().collect();
    let l: BTreeMap<&str, &Vec<&str>> = list_map.iter().map(|e| (e.0, &e.1)).collect();
    match serde_json::to_string(&(m, l)) {
        Ok(text) => Ok(text),
        Err(err) => Err(err.to_string()),
    }
}

/// Reads the pairs of two maps with text values from JSON.
///
/// Trusted: calls `serde_json::from_str` for a pair of `BTreeMap`s and lists their entries.
/// The contract gives the outcome a name and claims nothing more of it.
#[verifier::external_body]
fn json_from_str(text: &str) -> (r: Result<
    (Vec<(String, String)>, Vec<(String, Vec<String>)>),
    String,
>)
    ensures
        text_pairs_outcome(r) == json_db_parsed(text@),
{
    match serde_json::from_str::<(BTreeMap<String, String>, BTreeMap<String, Vec<String>>)>(text) {
        Ok((m, l)) => Ok((m.into_iter().collect(), l.into_iter().collect())),
        Err(err) => Err(err.to_string()),
    }
}

/// Writes pairs with text values as YAML: a sequence of two mappings.
///
/// Trusted: calls `serde_yaml::to_string` on the two sequences of pairs, each collected
/// into a `BTreeMap`, which keeps them in the order in which they come. The contract gives
/// the outcome a name and claims nothing more of it.
#[verifier::external_body]
fn yaml_to_string(map: &Vec<(&str, &str)>, list_map: &Vec<(&str, Vec<&str>)>) -> (r: Result<
    String,
    String,
>)
    requires
        sorted(map.deep_view()),
        sorted(list_map.deep_view()),
    ensures
        text_outcome(r) == yaml_db_text(map.deep_view(), list_map.deep_view()),
{
    let m: BTreeMap<&str, &str> = map.iter().copied().collect();
    let l: BTreeMap<&str, &Vec<&str>> = list_map.iter().map(|e| (e.0, &e.1)).collect();
    match serde_yaml::to_string(&(m, l)) {
        Ok(text) => Ok(text),
        Err(err) => Err(err.to_string()),
    }
}

/// Reads the pairs of two maps with text values from YAML.
///
/// Trusted: calls `serde_yaml::from_str` for a pair of `BTreeMap`s and lists their entries.
/// The contract gives the outcome a name and claims nothing more of it. The parser behind the
/// call descends once for every block collection that is open, and a block collection opens
/// only at a column that the line reaches through blanks and block indicators; the text is
/// therefore asked to keep such columns within [`YAML_MAX_INDENT`], and to end no line with a
/// carriage return alone, which would let the column grow over many lines.
#[verifier::external_body]
fn yaml_from_str(text: &str) -> (r: Result<
    (Vec<(String, String)>, Vec<(String, Vec<String>)>),
    String,
>)
    requires
        yaml_nesting_bounded(encode_utf8(text@)),
    ensures
        text_pairs_outcome(r) == yaml_db_parsed(text@),
{
    match serde_yaml::from_str::<(BTreeMap<String, String>, BTreeMap<String, Vec<String>>)>(text) {
        Ok((m, l)) => Ok((m.into_iter().collect(), l.into_iter().collect())),
        Err(err) => Err(err.to_string()),
    }
}

/// Writes pairs in bincode's layout.
///
/// Trusted: calls `bincode::serialize` on the two sequences of pairs, each collected into a
/// `BTreeMap`, which keeps them in the order in which they come. The contract gives the
/// outcome a name and claims nothing more of it.
#[verifier::external_body]
fn bincode_serialize(map: &DbMap, list_map: &DbListMap) -> (r: Result<Vec<u8>, String>)
    requires
        sorted(map.deep_view()),
        sorted(list_map.deep_view()),
    ensures
        bytes_outcome(r) == bincode_db_bytes(map.deep_view(), list_map.deep_view()),
{
    let m: BTreeMap<&String, &Vec<u8>> = map.iter().map(|e| (&e.0, &e.1)).collect();
    let l: BTreeMap<&String, &Vec<Vec<u8>>> = list_map.iter().map(|e| (&e.0, &e.1)).collect();
    match bincode::serialize(&(m, l)) {
        Ok(bytes) => Ok(bytes),
        Err(err) => Err(err.to_string()),
    }
}

/// Reads the pairs of two maps from bincode's layout.
///
/// Trusted: calls `bincode::deserialize` for a pair of `BTreeMap`s and lists their entries.
/// The contract gives the outcome a name and claims nothing more of it.
#[verifier::external_body]
fn bincode_deserialize(bytes: &[u8]) -> (r: Option<(DbMap, DbListMap)>)
    ensures
        byte_pairs_outcome(r) == bincode_db_parsed(bytes@),
{
    match bincode::deserialize::<(BTreeMap<String, Vec<u8>>, BTreeMap<String, Vec<Vec<u8>>>)>(bytes) {
        Ok((m, l)) => Some((m.into_iter().collect(), l.into_iter().collect())),
        Err(_) => None,
    }
}

/// Writes pairs in CBOR.
///
/// Trusted: calls `serde_cbor::to_vec` on the two sequences of pairs, each collected into a
/// `BTreeMap`, which keeps them in the order in which they come. The contract gives the
/// outcome a name and claims nothing more of it.
#[verifier::external_body]
fn cbor_to_vec(map: &DbMap, list_map: &DbListMap) -> (r: Result<Vec<u8>, String>)
    requires
        sorted(map.deep_view()),
        sorted(list_map.deep_view()),
    ensures
        bytes_outcome(r) == cbor_db_bytes(map.deep_view(), list_map.deep_view()),
{
    let m: BTreeMap<&String, &Vec<u8>> = map.iter().map(|e| (&e.0, &e.1)).collect();
    let l: BTreeMap<&String, &Vec<Vec<u8>>> = list_map.iter().map(|e| (&e.0, &e.1)).collect();
    match serde_cbor::to_vec(&(m, l)) {
        Ok(bytes) => Ok(bytes),
        Err(err) => Err(err.to_string()),
    }
}

/// Reads the pairs of two maps from CBOR.
///
/// Trusted: calls `serde_cbor::from_slice` for a pair of `BTreeMap`s and lists their
/// entries. The contract gives the outcome a name and claims nothing more of it.
#[verifier::external_body]
fn cbor_from_slice(bytes: &[u8]) -> (r: Option<(DbMap, DbListMap)>)
    ensures
        byte_pairs_outcome(r) == cbor_db_parsed(bytes@),
{
    match serde_cbor::from_slice::<(BTreeMap<String, Vec<u8>>, BTreeMap<String, Vec<Vec<u8>>>)>(bytes) {
        Ok((m, l)) => Some((m.into_iter().collect(), l.into_iter().collect())),
        Err(_) => None,
    }
}

/// The greatest column at which a line of a YAML text may open a block collection.
pub const YAML_MAX_INDENT: usize = 128;

/// The byte is a blank or a block indicator of YAML: a space, a tab, `-`, `?` or `:`.
pub open spec fn is_indent_byte(b: u8) -> bool {
    b == 0x20 || b == 0x09 || b == 0x2d || b == 0x3f || b == 0x3a
}

/// Every byte between the start of its line and position `i` is a blank or a block
/// indicator. Lines end at a line feed.
pub open spec fn leads_line(bytes: Seq<u8>, i: int) -> bool
    decreases i,
{
    if i <= 0 {
        true
    } else if bytes[i - 1] == 0x0a {
        true
    } else {
        is_indent_byte(bytes[i - 1]) && leads_line(bytes, i - 1)
    }
}

/// The number of bytes between the start of its line and position `i`.
pub open spec fn column(bytes: Seq<u8>, i: int) -> int
    decreases i,
{
    if i <= 0 {
        0
    } else if bytes[i - 1] == 0x0a {
        0
    } else {
        column(bytes, i - 1) + 1
    }
}

/// The YAML text with these UTF-8 bytes keeps its block nesting within bounds: every
/// carriage return is followed by a line feed, and no line begins with more than
/// [`YAML_MAX_INDENT`] blanks and block indicators.
pub open spec fn yaml_nesting_bounded(bytes: Seq<u8>) -> bool {
    &&& forall|i: int|
        0 <= i < bytes.len() && #[trigger] bytes[i] == 0x0d ==> i + 1 < bytes.len() && bytes[i
            + 1] == 0x0a
    &&& forall|i: int|
        0 <= i <= bytes.len() && #[trigger] leads_line(bytes, i) ==> column(bytes, i)
            <= YAML_MAX_INDENT
}

/// Whether a YAML text with these UTF-8 bytes keeps its block nesting within bounds.
pub fn yaml_nesting_is_bounded(bytes: &[u8]) -> (ok: bool)
    ensures
        ok == yaml_nesting_bounded(bytes@),
{
    let mut i: usize = 0;
    let mut leading = true;
    let mut col: usize = 0;
    while i < bytes.len()
        invariant
            i <= bytes.len(),
            leading == leads_line(bytes@, i as int),
            leading ==> col == column(bytes@, i as int),
            col <= YAML_MAX_INDENT,
            forall|j: int|
                0 <= j < i && #[trigger] bytes@[j] == 0x0d ==> j + 1 < bytes.len() && bytes@[j + 1]
                    == 0x0a,
            forall|j: int|
                0 <= j <= i && #[trigger] leads_line(bytes@, j) ==> column(bytes@, j)
                    <= YAML_MAX_INDENT,
        decreases bytes.len() - i,
    {
        let b = bytes[i];
        if b == 0x0d {
            if i + 1 >= bytes.len() || bytes[i + 1] != 0x0a {
                return false;
            }
        }
        if b == 0x0a {
            leading = true;
            col = 0;
        } else if leading && (b == 0x20 || b == 0x09 || b == 0x2d || b == 0x3f || b == 0x3a) {
            if col >= YAML_MAX_INDENT {
                assert(leads_line(bytes@, i + 1) && column(bytes@, i + 1) > YAML_MAX_INDENT);
                return false;
            }
            col += 1;
        } else {
            leading = false;
        }
        i += 1;
    }
    true
}

/// Every item is valid UTF-8.
pub open spec fn items_are_text(items: Seq<Seq<u8>>) -> bool {
    forall|i: int| 0 <= i < items.len() ==> valid_utf8(#[trigger] items[i])
}

/// The items read as UTF-8 text.
pub open spec fn text_items(items: Seq<Seq<u8>>) -> Seq<Seq<char>> {
    Seq::new(items.len(), |i: int| decode_utf8(items[i]))
}

/// The texts encoded in UTF-8.
pub open spec fn byte_items(texts: Seq<Seq<char>>) -> Seq<Seq<u8>> {
    Seq::new(texts.len(), |i: int| encode_utf8(texts[i]))
}

/// The pairs with every value read as UTF-8 text.
pub open spec fn text_pairs(pairs: BytePairs) -> TextPairs {
    Seq::new(pairs.len(), |i: int| (pairs[i].0, decode_utf8(pairs[i].1)))
}

/// The pairs with every item of every list read as UTF-8 text.
pub open spec fn text_list_pairs(pairs: ByteListPairs) -> TextListPairs {
    Seq::new(pairs.len(), |i: int| (pairs[i].0, text_items(pairs[i].1)))
}

/// The pairs with every text value encoded in UTF-8.
pub open spec fn byte_pairs(pairs: TextPairs) -> BytePairs {
    Seq::new(pairs.len(), |i: int| (pairs[i].0, encode_utf8(pairs[i].1)))
}

/// The pairs with every text item of every list encoded in UTF-8.
pub open spec fn byte_list_pairs(pairs: TextListPairs) -> ByteListPairs {
    Seq::new(pairs.len(), |i: int| (pairs[i].0, byte_items(pairs[i].1)))
}

/// Every stored byte string of the database is valid UTF-8, so that a text method can
/// write it.
pub open spec fn is_text_db(map: Scalars, list_map: Lists) -> bool {
    &&& forall|k: Key| map.contains_key(k) ==> valid_utf8(#[trigger] map[k])
    &&& forall|k: Key| list_map.contains_key(k) ==> items_are_text(#[trigger] list_map[k])
}

/// The message of the error that a text method gives for a database that holds bytes
/// which are not UTF-8.
pub open spec fn not_text_message() -> Seq<char> {
    "Cannot serialize DB: a stored value is not UTF-8 text"@
}

/// The message of the error for a file that does not hold a database.
pub open spec fn cannot_deserialize_message() -> Seq<char> {
    "Cannot deserialize DB"@
}

/// What a text method makes of the text that its codec wrote: the text's UTF-8 bytes.
pub open spec fn written_text(text: Result<Seq<char>, Seq<char>>) -> Result<Seq<u8>, Seq<char>> {
    match text {
        Ok(t) => Ok(encode_utf8(t)),
        Err(e) => Err(e),
    }
}

/// What a text method makes of the pairs that its codec read: the two maps that they stand
/// for, every text as its UTF-8 bytes.
pub open spec fn read_text(parsed: Result<(TextPairs, TextListPairs), Seq<char>>) -> Result<
    (Scalars, Lists),
    Seq<char>,
> {
    match parsed {
        Ok(p) => Ok((pairs_map(byte_pairs(p.0)), pairs_map(byte_list_pairs(p.1)))),
        Err(e) => Err(e),
    }
}

/// What a binary method makes of the pairs that its codec read: the two maps that they
/// stand for.
pub open spec fn read_binary(parsed: Option<(BytePairs, ByteListPairs)>) -> Result<
    (Scalars, Lists),
    Seq<char>,
> {
    match parsed {
        Some(p) => Ok((pairs_map(p.0), pairs_map(p.1))),
        None => Err(cannot_deserialize_message()),
    }
}

/// The file content for a database under a serialization method, or the message of the
/// error with which encoding fails. The codec is given the pairs of each map in the order
/// of their keys.
pub open spec fn db_encoding(method: SerializationMethod, map: Scalars, list_map: Lists) -> Result<
    Seq<u8>,
    Seq<char>,
> {
    match method {
        SerializationMethod::Json => if is_text_db(map, list_map) {
            written_text(
                json_db_text(text_pairs(canonical(map)), text_list_pairs(canonical(list_map))),
            )
        } else {
            Err(not_text_message())
        },
        SerializationMethod::Yaml => if is_text_db(map, list_map) {
            written_text(
                yaml_db_text(text_pairs(canonical(map)), text_list_pairs(canonical(list_map))),
            )
        } else {
            Err(not_text_message())
        },
        SerializationMethod::Bin => bincode_db_bytes(canonical(map), canonical(list_map)),
        SerializationMethod::Cbor => cbor_db_bytes(canonical(map), canonical(list_map)),
    }
}

/// The database that a file content holds under a serialization method, or the message of
/// the error with which decoding fails.
pub open spec fn db_decoding(method: SerializationMethod, bytes: Seq<u8>) -> Result<
    (Scalars, Lists),
    Seq<char>,
> {
    match method {
        SerializationMethod::Json => if valid_utf8(bytes) {
            read_text(json_db_parsed(decode_utf8(bytes)))
        } else {
            Err(cannot_deserialize_message())
        },
        SerializationMethod::Yaml => if valid_utf8(bytes) && yaml_nesting_bounded(bytes) {
            read_text(yaml_db_parsed(decode_utf8(bytes)))
        } else {
            Err(cannot_deserialize_message())
        },
        SerializationMethod::Bin => read_binary(bincode_db_parsed(bytes)),
        SerializationMethod::Cbor => read_binary(cbor_db_parsed(bytes)),
    }
}

/// The codec of the method reads back the pairs that it writes: where it encodes the two
/// sequences of pairs, it decodes what it wrote to the same two sequences. For YAML this
/// includes that the text it writes keeps its block nesting within bounds.
pub open spec fn codec_reads_back(
    method: SerializationMethod,
    map: BytePairs,
    list_map: ByteListPairs,
) -> bool {
    match method {
        SerializationMethod::Json => match json_db_text(
            text_pairs(map),
            text_list_pairs(list_map),
        ) {
            Ok(text) => json_db_parsed(text) == Ok::<(TextPairs, TextListPairs), Seq<char>>(
                (text_pairs(map), text_list_pairs(list_map)),
            ),
            Err(_) => true,
        },
        SerializationMethod::Yaml => match yaml_db_text(
            text_pairs(map),
            text_list_pairs(list_map),
        ) {
            Ok(text) => yaml_nesting_bounded(encode_utf8(text)) && yaml_db_parsed(text) == Ok::<
                (TextPairs, TextListPairs),
                Seq<char>,
            >((text_pairs(map), text_list_pairs(list_map))),
            Err(_) => true,
        },
        SerializationMethod::Bin => match bincode_db_bytes(map, list_map) {
            Ok(bytes) => bincode_db_parsed(bytes) == Some((map, list_map)),
            Err(_) => true,
        },
        SerializationMethod::Cbor => match cbor_db_bytes(map, list_map) {
            Ok(bytes) => cbor_db_parsed(bytes) == Some((map, list_map)),
            Err(_) => true,
        },
    }
}

/// Stored bytes that are text come back from being read as text and encoded again.
pub proof fn lemma_text_comes_back(map: BytePairs, list_map: ByteListPairs)
    requires
        pairs_are_text(map, list_map),
    ensures
        byte_pairs(text_pairs(map)) == map,
        byte_list_pairs(text_list_pairs(list_map)) == list_map,
{
    assert forall|i: int| 0 <= i < map.len() implies #[trigger] byte_pairs(text_pairs(map))[i]
        == map[i] by {
        assert(valid_utf8(map[i].1));
        vstd::utf8::decode_utf8_encode_utf8(map[i].1);
    }
    assert(byte_pairs(text_pairs(map)) =~= map);
    assert forall|i: int| 0 <= i < list_map.len() implies #[trigger] byte_list_pairs(
        text_list_pairs(list_map),
    )[i] == list_map[i] by {
        let items = list_map[i].1;
        assert(items_are_text(items));
        assert forall|j: int| 0 <= j < items.len() implies #[trigger] byte_items(
            text_items(items),
        )[j] == items[j] by {
            assert(valid_utf8(items[j]));
            vstd::utf8::decode_utf8_encode_utf8(items[j]);
        }
        assert(byte_items(text_items(items)) =~= items);
    }
    assert(byte_list_pairs(text_list_pairs(list_map)) =~= list_map);
}

/// Where the codec reads back the pairs that it writes, decoding the file content of a
/// database gives the database: what the library does around the codec loses nothing.
pub proof fn lemma_decoding_of_encoding(
    method: SerializationMethod,
    map: BytePairs,
    list_map: ByteListPairs,
)
    requires
        sorted(map),
        sorted(list_map),
        codec_reads_back(method, map, list_map),
    ensures
        db_encoding(method, as_map(map), as_map(list_map)) matches Ok(content) ==> db_decoding(
            method,
            content,
        ) == Ok::<(Scalars, Lists), Seq<char>>((as_map(map), as_map(list_map))),
{
    lemma_text_db(map, list_map);
    lemma_sorted_distinct(map);
    lemma_sorted_distinct(list_map);
    crate::assoc::lemma_pairs_map(map);
    crate::assoc::lemma_pairs_map(list_map);
    match method {
        SerializationMethod::Json => {
            if pairs_are_text(map, list_map) {
                lemma_text_comes_back(map, list_map);
                if let Ok(text) = json_db_text(text_pairs(map), text_list_pairs(list_map)) {
                    vstd::utf8::encode_utf8_valid_utf8(text);
                    vstd::utf8::encode_utf8_decode_utf8(text);
                }
            }
        },
        SerializationMethod::Yaml => {
            if pairs_are_text(map, list_map) {
                lemma_text_comes_back(map, list_map);
                if let Ok(text) = yaml_db_text(text_pairs(map), text_list_pairs(list_map)) {
                    vstd::utf8::encode_utf8_valid_utf8(text);
                    vstd::utf8::encode_utf8_decode_utf8(text);
                }
            }
        },
        SerializationMethod::Bin => {},
        SerializationMethod::Cbor => {},
    }
}

/// The views of a decoded database: the two maps that its pairs stand for.
pub open spec fn maps_outcome(r: Result<(DbMap, DbListMap), String>) -> Result<
    (Scalars, Lists),
    Seq<char>,
> {
    match r {
        Ok(p) => Ok((as_map(p.0.deep_view()), as_map(p.1.deep_view()))),
        Err(e) => Err(e@),
    }
}

/// The items of a list as borrowed texts; `None` when one of them is not UTF-8.
fn text_items_of<'a>(items: &'a Vec<Vec<u8>>) -> (r: Option<Vec<&'a str>>)
    ensures
        match r {
            Some(t) => items_are_text(items.deep_view()) && t.deep_view() == text_items(
                items.deep_view(),
            ),
            None => !items_are_text(items.deep_view()),
        },
{
    let mut out: Vec<&'a str> = Vec::new();
    let mut i: usize = 0;
    while i < items.len()
        invariant
            i <= items.len(),
            out.len() == i,
            items.deep_view().len() == items.len(),
            forall|j: int| 0 <= j < i ==> valid_utf8(#[trigger] items.deep_view()[j]),
            forall|j: int| 0 <= j < i ==> (#[trigger] out[j])@ == decode_utf8(items.deep_view()[j]),
        decreases items.len() - i,
    {
        assert(items.deep_view()[i as int] == items[i as int]@);
        match utf8_text(items[i].as_slice()) {
            Some(s) => {
                out.push(s);
            },
            None => {
                return None;
            },
        }
        i += 1;
    }
    assert(out.deep_view() =~= text_items(items.deep_view()));
    Some(out)
}

/// The texts of a list as stored bytes.
fn byte_items_of(texts: Vec<String>) -> (out: Vec<Vec<u8>>)
    ensures
        out.deep_view() == byte_items(texts.deep_view()),
{
    let mut out: Vec<Vec<u8>> = Vec::new();
    for t in it: texts
        invariant
            out.len() == it.index(),
            it.seq() == texts@,
            forall|j: int| 0 <= j < out.len() ==> (#[trigger] out[j])@ == encode_utf8(texts[j]@),
    {
        out.push(t.as_str().as_bytes_vec());
    }
    assert forall|j: int| 0 <= j < out.len() implies #[trigger] out.deep_view()[j] == byte_items(
        texts.deep_view(),
    )[j] by {
        assert(out.deep_view()[j] == out[j]@);
        assert(texts.deep_view()[j] == texts[j]@);
    }
    assert(out.deep_view() =~= byte_items(texts.deep_view()));
    out
}

/// Every value of the pairs is valid UTF-8, and every item of every list.
pub open spec fn pairs_are_text(map: BytePairs, list_map: ByteListPairs) -> bool {
    &&& forall|i: int| 0 <= i < map.len() ==> valid_utf8((#[trigger] map[i]).1)
    &&& forall|i: int| 0 <= i < list_map.len() ==> items_are_text((#[trigger] list_map[i]).1)
}

/// The database with every stored byte string borrowed as text, for a text codec to write;
/// `None` when one of them is not UTF-8.
fn text_db<'a>(map: &'a DbMap, list_map: &'a DbListMap) -> (r: Option<
    (Vec<(&'a str, &'a str)>, Vec<(&'a str, Vec<&'a str>)>),
>)
    ensures
        match r {
            Some(p) => {
                &&& pairs_are_text(map.deep_view(), list_map.deep_view())
                &&& p.0.deep_view() == text_pairs(map.deep_view())
                &&& p.1.deep_view() == text_list_pairs(list_map.deep_view())
            },
            None => !pairs_are_text(map.deep_view(), list_map.deep_view()),
        },
{
    let ghost m = map.deep_view();
    let ghost l = list_map.deep_view();
    let mut texts: Vec<(&'a str, &'a str)> = Vec::new();
    let mut i: usize = 0;
    while i < map.len()
        invariant
            i <= map.len(),
            texts.len() == i,
            m == map.deep_view(),
            m.len() == map.len(),
            forall|j: int| 0 <= j < i ==> valid_utf8((#[trigger] m[j]).1),
            forall|j: int|
                0 <= j < i ==> (#[trigger] texts[j]).0@ == m[j].0 && texts[j].1@ == decode_utf8(
                    m[j].1,
                ),
        decreases map.len() - i,
    {
        assert(m[i as int].1 == map[i as int].1@);
        assert(m[i as int].0 == map[i as int].0@);
        match utf8_text(map[i].1.as_slice()) {
            Some(s) => {
                texts.push((map[i].0.as_str(), s));
            },
            None => {
                return None;
            },
        }
        i += 1;
    }
    let mut text_lists: Vec<(&'a str, Vec<&'a str>)> = Vec::new();
    let mut n: usize = 0;
    while n < list_map.len()
        invariant
            n <= list_map.len(),
            text_lists.len() == n,
            l == list_map.deep_view(),
            l.len() == list_map.len(),
            forall|j: int| 0 <= j < n ==> items_are_text((#[trigger] l[j]).1),
            forall|j: int|
                0 <= j < n ==> (#[trigger] text_lists[j]).0@ == l[j].0
                    && text_lists[j].1.deep_view() == text_items(l[j].1),
        decreases list_map.len() - n,
    {
        assert(l[n as int].1 == list_map[n as int].1.deep_view());
        assert(l[n as int].0 == list_map[n as int].0@);
        match text_items_of(&list_map[n].1) {
            Some(items) => {
                text_lists.push((list_map[n].0.as_str(), items));
            },
            None => {
                return None;
            },
        }
        n += 1;
    }
    proof {
        let t = texts.deep_view();
        let tl = text_lists.deep_view();
        assert forall|j: int| 0 <= j < m.len() implies #[trigger] t[j] == text_pairs(m)[j] by {
            assert(t[j] == (texts[j].0@, texts[j].1@));
        }
        assert forall|j: int| 0 <= j < l.len() implies #[trigger] tl[j] == text_list_pairs(
            l,
        )[j] by {
            assert(tl[j] == (text_lists[j].0@, text_lists[j].1.deep_view()));
        }
        assert(t =~= text_pairs(m));
        assert(tl =~= text_list_pairs(l));
    }
    Some((texts, text_lists))
}

/// The pairs that a text codec read, with every text as stored bytes.
fn byte_db(texts: Vec<(String, String)>, text_lists: Vec<(String, Vec<String>)>) -> (r: (
    DbMap,
    DbListMap,
))
    ensures
        r.0.deep_view() == byte_pairs(texts.deep_view()),
        r.1.deep_view() == byte_list_pairs(text_lists.deep_view()),
{
    let ghost t = texts.deep_view();
    let ghost tl = text_lists.deep_view();
    let mut map: DbMap = Vec::new();
    for e in it: texts
        invariant
            map.len() == it.index(),
            it.seq() == texts@,
            t == texts.deep_view(),
            forall|j: int|
                0 <= j < map.len() ==> (#[trigger] map[j]).0@ == t[j].0 && map[j].1@
                    == encode_utf8(t[j].1),
    {
        let ghost at = map.len() as int;
        assert(t[at].0 == texts[at].0@ && t[at].1 == texts[at].1@);
        let bytes = e.1.as_str().as_bytes_vec();
        map.push((e.0, bytes));
    }
    let mut list_map: DbListMap = Vec::new();
    for e in it: text_lists
        invariant
            list_map.len() == it.index(),
            it.seq() == text_lists@,
            tl == text_lists.deep_view(),
            forall|j: int|
                0 <= j < list_map.len() ==> (#[trigger] list_map[j]).0@ == tl[j].0
                    && list_map[j].1.deep_view() == byte_items(tl[j].1),
    {
        let ghost at = list_map.len() as int;
        assert(tl[at].0 == text_lists[at].0@ && tl[at].1 == text_lists[at].1.deep_view());
        let items = byte_items_of(e.1);
        list_map.push((e.0, items));
    }
    proof {
        let m = map.deep_view();
        let l = list_map.deep_view();
        assert forall|j: int| 0 <= j < t.len() implies #[trigger] m[j] == byte_pairs(t)[j] by {
            assert(m[j] == (map[j].0@, map[j].1@));
        }
        assert forall|j: int| 0 <= j < tl.len() implies #[trigger] l[j] == byte_list_pairs(
            tl,
        )[j] by {
            assert(l[j] == (list_map[j].0@, list_map[j].1.deep_view()));
        }
        assert(m =~= byte_pairs(t));
        assert(l =~= byte_list_pairs(tl));
    }
    (map, list_map)
}

/// For pairs in the order of their keys, every value of the pairs is text exactly when
/// every value of their maps is.
proof fn lemma_text_db(m: BytePairs, l: ByteListPairs)
    requires
        sorted(m),
        sorted(l),
    ensures
        pairs_are_text(m, l) == is_text_db(as_map(m), as_map(l)),
        canonical(as_map(m)) == m,
        canonical(as_map(l)) == l,
        sorted(text_pairs(m)),
        sorted(text_list_pairs(l)),
{
    assert forall|i: int, j: int| 0 <= i < j < m.len() implies key_lt(
        (#[trigger] text_pairs(m)[i]).0,
        (#[trigger] text_pairs(m)[j]).0,
    ) by {
        assert(key_lt(m[i].0, m[j].0));
    }
    assert forall|i: int, j: int| 0 <= i < j < l.len() implies key_lt(
        (#[trigger] text_list_pairs(l)[i]).0,
        (#[trigger] text_list_pairs(l)[j]).0,
    ) by {
        assert(key_lt(l[i].0, l[j].0));
    }
    lemma_sorted_distinct(m);
    lemma_sorted_distinct(l);
    lemma_canonical(m);
    lemma_canonical(l);
    if pairs_are_text(m, l) {
        assert forall|k: Key| as_map(m).contains_key(k) implies valid_utf8(
            #[trigger] as_map(m)[k],
        ) by {
            lemma_entry(m, index_of(m, k));
        }
        assert forall|k: Key| as_map(l).contains_key(k) implies items_are_text(
            #[trigger] as_map(l)[k],
        ) by {
            lemma_entry(l, index_of(l, k));
        }
    }
    if is_text_db(as_map(m), as_map(l)) {
        assert forall|i: int| 0 <= i < m.len() implies valid_utf8((#[trigger] m[i]).1) by {
            lemma_entry(m, i);
        }
        assert forall|i: int| 0 <= i < l.len() implies items_are_text((#[trigger] l[i]).1) by {
            lemma_entry(l, i);
        }
    }
}

/// The error message for a database that a text method cannot write.
fn not_text_error() -> (msg: String)
    ensures
        msg@ == not_text_message(),
{
    "Cannot serialize DB: a stored value is not UTF-8 text".to_owned()
}

/// The error message for a file that does not hold a database.
fn cannot_deserialize_error() -> (msg: String)
    ensures
        msg@ == cannot_deserialize_message(),
{
    "Cannot deserialize DB".to_owned()
}

/// The codec of the JSON method.
pub(crate) struct JsonSerializer {}

impl JsonSerializer {
    pub(crate) fn new() -> JsonSerializer {
        JsonSerializer {  }
    }

    /// Encodes a database as JSON text: every stored byte string is written as the text
    /// that it holds.
    pub(crate) fn serialize_db(&self, map: &DbMap, list_map: &DbListMap) -> (r: Result<
        Vec<u8>,
        String,
    >)
        requires
            sorted(map.deep_view()),
            sorted(list_map.deep_view()),
        ensures
            bytes_outcome(r) == db_encoding(
                SerializationMethod::Json,
                as_map(map.deep_view()),
                as_map(list_map.deep_view()),
            ),
    {
        proof {
            lemma_text_db(map.deep_view(), list_map.deep_view());
        }
        match text_db(map, list_map) {
            Some((texts, text_lists)) => match json_to_string(&texts, &text_lists) {
                Ok(text) => Ok(text.as_str().as_bytes_vec()),
                Err(err) => Err(err),
            },
            None => Err(not_text_error()),
        }
    }

    /// Decodes a database from JSON text: every text becomes the bytes that encode it.
    pub(crate) fn deserialize_db(&self, ser_db: &[u8]) -> (r: Result<(DbMap, DbListMap), String>)
        ensures
            maps_outcome(r) == db_decoding(SerializationMethod::Json, ser_db@),
            r matches Ok(p) ==> sorted(p.0.deep_view()) && sorted(p.1.deep_view()),
    {
        match utf8_text(ser_db) {
            Some(text) => match json_from_str(text) {
                Ok((texts, text_lists)) => {
                    let (map, list_map) = byte_db(texts, text_lists);
                    Ok((sorted_from(map), sorted_from(list_map)))
                },
                Err(err) => Err(err),
            },
            None => Err(cannot_deserialize_error()),
        }
    }
}

/// The codec of the YAML method.
pub(crate) struct YamlSerializer {}

impl YamlSerializer {
    pub(crate) fn new() -> YamlSerializer {
        YamlSerializer {  }
    }

    /// Encodes a database as YAML text: every stored byte string is written as the text
    /// that it holds.
    pub(crate) fn serialize_db(&self, map: &DbMap, list_map: &DbListMap) -> (r: Result<
        Vec<u8>,
        String,
    >)
        requires
            sorted(map.deep_view()),
            sorted(list_map.deep_view()),
        ensures
            bytes_outcome(r) == db_encoding(
                SerializationMethod::Yaml,
                as_map(map.deep_view()),
                as_map(list_map.deep_view()),
            ),
    {
        proof {
            lemma_text_db(map.deep_view(), list_map.deep_view());
        }
        match text_db(map, list_map) {
            Some((texts, text_lists)) => match yaml_to_string(&texts, &text_lists) {
                Ok(text) => Ok(text.as_str().as_bytes_vec()),
                Err(err) => Err(err),
            },
            None => Err(not_text_error()),
        }
    }

    /// Decodes a database from YAML text: every text becomes the bytes that encode it. A
    /// text whose block nesting is not within bounds is no database.
    pub(crate) fn deserialize_db(&self, ser_db: &[u8]) -> (r: Result<(DbMap, DbListMap), String>)
        ensures
            maps_outcome(r) == db_decoding(SerializationMethod::Yaml, ser_db@),
            r matches Ok(p) ==> sorted(p.0.deep_view()) && sorted(p.1.deep_view()),
    {
        match utf8_text(ser_db) {
            Some(text) => {
                if !yaml_nesting_is_bounded(ser_db) {
                    return Err(cannot_deserialize_error());
                }
                match yaml_from_str(text) {
                    Ok((texts, text_lists)) => {
                        let (map, list_map) = byte_db(texts, text_lists);
                        Ok((sorted_from(map), sorted_from(list_map)))
                    },
                    Err(err) => Err(err),
                }
            },
            None => Err(cannot_deserialize_error()),
        }
    }
}

/// The codec of the bincode method.
pub(crate) struct BincodeSerializer {}

impl BincodeSerializer {
    pub(crate) fn new() -> BincodeSerializer {
        BincodeSerializer {  }
    }

    /// Encodes a database in bincode's layout.
    pub(crate) fn serialize_db(&self, map: &DbMap, list_map: &DbListMap) -> (r: Result<
        Vec<u8>,
        String,
    >)
        requires
            sorted(map.deep_view()),
            sorted(list_map.deep_view()),
        ensures
            bytes_outcome(r) == db_encoding(
                SerializationMethod::Bin,
                as_map(map.deep_view()),
                as_map(list_map.deep_view()),
            ),
    {
        proof {
            lemma_canonical(map.deep_view());
            lemma_canonical(list_map.deep_view());
        }
        bincode_serialize(map, list_map)
    }

    /// Decodes a database from bincode's layout.
    pub(crate) fn deserialize_db(&self, ser_db: &[u8]) -> (r: Result<(DbMap, DbListMap), String>)
        ensures
            maps_outcome(r) == db_decoding(SerializationMethod::Bin, ser_db@),
            r matches Ok(p) ==> sorted(p.0.deep_view()) && sorted(p.1.deep_view()),
    {
        match bincode_deserialize(ser_db) {
            Some((map, list_map)) => Ok((sorted_from(map), sorted_from(list_map))),
            None => Err(cannot_deserialize_error()),
        }
    }
}

/// The codec of the CBOR method.
pub(crate) struct CborSerializer {}

impl CborSerializer {
    pub(crate) fn new() -> CborSerializer {
        CborSerializer {  }
    }

    /// Encodes a database in CBOR.
    pub(crate) fn serialize_db(&self, map: &DbMap, list_map: &DbListMap) -> (r: Result<
        Vec<u8>,
        String,
    >)
        requires
            sorted(map.deep_view()),
            sorted(list_map.deep_view()),
        ensures
            bytes_outcome(r) == db_encoding(
                SerializationMethod::Cbor,
                as_map(map.deep_view()),
                as_map(list_map.deep_view()),
            ),
    {
        proof {
            lemma_canonical(map.deep_view());
            lemma_canonical(list_map.deep_view());
        }
        cbor_to_vec(map, list_map)
    }

    /// Decodes a database from CBOR.
    pub(crate) fn deserialize_db(&self, ser_db: &[u8]) -> (r: Result<(DbMap, DbListMap), String>)
        ensures
            maps_outcome(r) == db_decoding(SerializationMethod::Cbor, ser_db@),
            r matches Ok(p) ==> sorted(p.0.deep_view()) && sorted(p.1.deep_view()),
    {
        match cbor_from_slice(ser_db) {
            Some((map, list_map)) => Ok((sorted_from(map), sorted_from(list_map))),
            None => Err(cannot_deserialize_error()),
        }
    }
}

/// The codec of a database: it hands each call to the codec of the method it was made for.
pub(crate) struct Serializer {
    ser_method: SerializationMethod,
    json_serializer: JsonSerializer,
    bincode_serializer: BincodeSerializer,
    yaml_serializer: YamlSerializer,
    cbor_serializer: CborSerializer,
}

impl Serializer {
    /// The method that this codec was made for.
    pub(crate) closed spec fn method(&self) -> SerializationMethod {
        self.ser_method
    }

    pub(crate) fn new(ser_method: SerializationMethod) -> (serializer: Serializer)
        ensures
            serializer.method() == ser_method,
    {
        Serializer {
            ser_method,
            json_serializer: JsonSerializer::new(),
            bincode_serializer: BincodeSerializer::new(),
            yaml_serializer: YamlSerializer::new(),
            cbor_serializer: CborSerializer::new(),
        }
    }

    /// Encodes a database as the content of its file.
    pub(crate) fn serialize_db(&self, map: &DbMap, list_map: &DbListMap) -> (r: Result<
        Vec<u8>,
        String,
    >)
        requires
            sorted(map.deep_view()),
            sorted(list_map.deep_view()),
        ensures
            bytes_outcome(r) == db_encoding(
                self.method(),
                as_map(map.deep_view()),
                as_map(list_map.deep_view()),
            ),
    {
        match self.ser_method {
            SerializationMethod::Json => self.json_serializer.serialize_db(map, list_map),
            SerializationMethod::Bin => self.bincode_serializer.serialize_db(map, list_map),
            SerializationMethod::Yaml => self.yaml_serializer.serialize_db(map, list_map),
            SerializationMethod::Cbor => self.cbor_serializer.serialize_db(map, list_map),
        }
    }

    /// Decodes the content of a file as a database, its pairs in the order of their keys.
    pub(crate) fn deserialize_db(&self, ser_db: &[u8]) -> (r: Result<(DbMap, DbListMap), String>)
        ensures
            maps_outcome(r) == db_decoding(self.method(), ser_db@),
            r matches Ok(p) ==> sorted(p.0.deep_view()) && sorted(p.1.deep_view()),
    {
        match self.ser_method {
            SerializationMethod::Json => self.json_serializer.deserialize_db(ser_db),
            SerializationMethod::Bin => self.bincode_serializer.deserialize_db(ser_db),
            SerializationMethod::Yaml => self.yaml_serializer.deserialize_db(ser_db),
            SerializationMethod::Cbor => self.cbor_serializer.deserialize_db(ser_db),
        }
    }
}

} // verus!

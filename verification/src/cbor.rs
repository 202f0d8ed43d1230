//! CBOR data items as plain values, and their binary form.
//!
//! The binary form itself is written and read by `ciborium`. This module gives the
//! data model that the rest of the library works on and names the two directions.
//! An item is taken apart one level at a time: the elements of an array and the
//! keys and values of a map are handed out in binary form, to be read in turn.

use vstd::prelude::*;
use ciborium::{from_reader, into_writer, Value};

verus! {

/// The mathematical value of a CBOR data item. Unsigned integers, byte strings,
/// text strings, arrays and maps are structural; every other item (a negative
/// integer, a float, a simple value, a tagged item) is stood for by its binary form.
pub enum CborItem {
    Unsigned(u64),
    Bytes(Seq<u8>),
    Text(Seq<char>),
    List(Seq<CborItem>),
    Dict(Seq<(CborItem, CborItem)>),
    Other(Seq<u8>),
}

/// The binary form that `ciborium::into_writer` gives to the `ciborium::Value` that
/// an item stands for.
pub uninterp spec fn cbor_encoding(item: CborItem) -> Seq<u8>;

/// The item that stands for the `ciborium::Value` that `ciborium::from_reader`
/// reads at the start of `data`, if it reads one: an integer from 0 to 2^64 - 1
/// is `Unsigned`; byte strings, text strings, arrays and maps are the variants of
/// their kind; any other value is `Other`, with the binary form that
/// `ciborium::into_writer` gives it.
pub uninterp spec fn cbor_decoding(data: Seq<u8>) -> Option<CborItem>;

/// The item is made of integers, strings, arrays and maps only, nested at most
/// `depth` levels deep.
pub open spec fn structural(item: CborItem, depth: nat) -> bool
    decreases depth,
{
    match item {
        CborItem::List(xs) => depth > 0 && forall|i: int|
            0 <= i < xs.len() ==> structural(#[trigger] xs[i], (depth - 1) as nat),
        CborItem::Dict(es) => depth > 0 && forall|i: int|
            0 <= i < es.len() ==> structural((#[trigger] es[i]).0, (depth - 1) as nat)
                && structural(es[i].1, (depth - 1) as nat),
        CborItem::Other(_) => false,
        _ => true,
    }
}

/// Nesting depth up to which a structural item is promised to be read back as written.
pub const ROUND_TRIP_DEPTH: u64 = 16;

/// One level of a CBOR data item. Strings are held as they are; the elements of an
/// array and the keys and values of a map are held in binary form; any other item
/// (an integer, a float, a simple value, a tagged item) is held whole in binary form.
#[derive(Debug)]
pub enum Cbor {
    Bytes(Vec<u8>),
    Text(String),
    List(Vec<Vec<u8>>),
    Dict(Vec<(Vec<u8>, Vec<u8>)>),
    Other(Vec<u8>),
}

/// The mathematical value of a [`Cbor`]: the same level, its parts as sequences of
/// bytes.
pub enum CborLevel {
    Bytes(Seq<u8>),
    Text(Seq<char>),
    List(Seq<Seq<u8>>),
    Dict(Seq<(Seq<u8>, Seq<u8>)>),
    Other(Seq<u8>),
}

/// The bytes of each part of a list.
pub open spec fn part_views(parts: Seq<Vec<u8>>) -> Seq<Seq<u8>> {
    parts.map_values(|b: Vec<u8>| b@)
}

/// The bytes of each key and value of a list of entries.
pub open spec fn entry_views(parts: Seq<(Vec<u8>, Vec<u8>)>) -> Seq<(Seq<u8>, Seq<u8>)> {
    parts.map_values(|e: (Vec<u8>, Vec<u8>)| (e.0@, e.1@))
}

impl View for Cbor {
    type V = CborLevel;

    open spec fn view(&self) -> CborLevel {
        match self {
            Cbor::Bytes(b) => CborLevel::Bytes(b@),
            Cbor::Text(t) => CborLevel::Text(t@),
            Cbor::List(v) => CborLevel::List(part_views(v@)),
            Cbor::Dict(v) => CborLevel::Dict(entry_views(v@)),
            Cbor::Other(b) => CborLevel::Other(b@),
        }
    }
}

/// One level of an item: a string as it is; of an array each element and of a map
/// each key and value in its binary form; any other item whole in its binary form.
pub open spec fn level(item: CborItem) -> CborLevel {
    match item {
        CborItem::Bytes(b) => CborLevel::Bytes(b),
        CborItem::Text(t) => CborLevel::Text(t),
        CborItem::List(xs) => CborLevel::List(xs.map_values(|x: CborItem| cbor_encoding(x))),
        CborItem::Dict(es) => CborLevel::Dict(
            es.map_values(|e: (CborItem, CborItem)| (cbor_encoding(e.0), cbor_encoding(e.1))),
        ),
        CborItem::Unsigned(_) | CborItem::Other(_) => CborLevel::Other(cbor_encoding(item)),
    }
}

/// One level of the item at the start of `data`, if there is one.
pub open spec fn cbor_level(data: Seq<u8>) -> Option<CborLevel> {
    match cbor_decoding(data) {
        Some(item) => Some(level(item)),
        None => None,
    }
}

/// The unsigned integer at the start of `data`, if the item there is one.
pub open spec fn unsigned_of(data: Seq<u8>) -> Option<u64> {
    match cbor_decoding(data) {
        Some(CborItem::Unsigned(n)) => Some(n),
        _ => None,
    }
}

/// The items that are read from a list of binary forms.
pub open spec fn items_of(parts: Seq<Seq<u8>>) -> Seq<CborItem> {
    parts.map_values(|b: Seq<u8>| cbor_decoding(b).unwrap())
}

/// The entries that are read from a list of pairs of binary forms.
pub open spec fn entries_of(parts: Seq<(Seq<u8>, Seq<u8>)>) -> Seq<(CborItem, CborItem)> {
    parts.map_values(
        |e: (Seq<u8>, Seq<u8>)| (cbor_decoding(e.0).unwrap(), cbor_decoding(e.1).unwrap()),
    )
}

/// An item can be read from each of the binary forms.
pub open spec fn all_readable(parts: Seq<Seq<u8>>) -> bool {
    forall|i: int| 0 <= i < parts.len() ==> cbor_decoding(#[trigger] parts[i]) is Some
}

/// An item can be read from each key and each value.
pub open spec fn entries_readable(parts: Seq<(Seq<u8>, Seq<u8>)>) -> bool {
    forall|i: int|
        0 <= i < parts.len() ==> cbor_decoding((#[trigger] parts[i]).0) is Some && cbor_decoding(
            parts[i].1,
        ) is Some
}

/// An item can be read from every part of the level that is held in binary form.
pub open spec fn readable(l: CborLevel) -> bool {
    match l {
        CborLevel::List(ps) => all_readable(ps),
        CborLevel::Dict(es) => entries_readable(es),
        CborLevel::Other(b) => cbor_decoding(b) is Some,
        _ => true,
    }
}

/// The item that a level makes once each of its parts is read.
pub open spec fn assembled(l: CborLevel) -> CborItem {
    match l {
        CborLevel::Bytes(b) => CborItem::Bytes(b),
        CborLevel::Text(t) => CborItem::Text(t),
        CborLevel::List(ps) => CborItem::List(items_of(ps)),
        CborLevel::Dict(es) => CborItem::Dict(entries_of(es)),
        CborLevel::Other(b) => cbor_decoding(b).unwrap(),
    }
}

/// `ciborium::from_reader` on each part that `item` holds in binary form, then
/// `ciborium::into_writer` on the value made of what was read: the binary form of
/// that value. Every such part has to be readable. A structural item of moderate
/// depth is read back exactly as it was written, and an array or a map that is not
/// empty takes more than one byte.
#[verifier::external_body]
pub(crate) fn encode(item: &Cbor) -> (out: Vec<u8>)
    requires
        readable(item@),
    ensures
        out@ == cbor_encoding(assembled(item@)),
        structural(assembled(item@), ROUND_TRIP_DEPTH as nat) ==> cbor_decoding(out@) == Some(
            assembled(item@),
        ),
        (item@ matches CborLevel::Dict(es) && es.len() > 0) ==> out@.len() > 1,
        (item@ matches CborLevel::List(xs) && xs.len() > 0) ==> out@.len() > 1,
{
    let read = |b: &Vec<u8>| from_reader::<Value, _>(b.as_slice()).unwrap();
    let value = match item {
        Cbor::Bytes(b) => Value::Bytes(b.clone()),
        Cbor::Text(t) => Value::Text(t.clone()),
        Cbor::List(v) => Value::Array(v.iter().map(read).collect()),
        Cbor::Dict(v) => Value::Map(v.iter().map(|e| (read(&e.0), read(&e.1))).collect()),
        Cbor::Other(b) => read(b),
    };
    let mut out = Vec::new();
    into_writer(&value, &mut out).expect("a vector takes every write");
    out
}

/// `ciborium::from_reader`, then `ciborium::into_writer` on each part of what was
/// read: one level of the item at the start of `data`, or `None` where the bytes do
/// not begin with a readable item. Nothing is said of whether a part that is handed
/// out in binary form can be read in turn.
#[verifier::external_body]
pub(crate) fn decode(data: &[u8]) -> (r: Option<Cbor>)
    ensures
        r is Some <==> cbor_decoding(data@) is Some,
        r matches Some(item) ==> cbor_level(data@) == Some(item@),
{
    let write = |v: &Value| {
        let mut b = Vec::new();
        into_writer(v, &mut b).expect("a vector takes every write");
        b
    };
    Some(match from_reader::<Value, _>(data).ok()? {
        Value::Bytes(b) => Cbor::Bytes(b),
        Value::Text(t) => Cbor::Text(t),
        Value::Array(v) => Cbor::List(v.iter().map(write).collect()),
        Value::Map(v) => Cbor::Dict(v.iter().map(|e| (write(&e.0), write(&e.1))).collect()),
        v => Cbor::Other(write(&v)),
    })
}

/// `ciborium::into_writer` on an unsigned integer: its binary form, which is read
/// back as the same integer.
#[verifier::external_body]
pub(crate) fn encode_unsigned(n: u64) -> (out: Vec<u8>)
    ensures
        out@ == cbor_encoding(CborItem::Unsigned(n)),
        cbor_decoding(out@) == Some(CborItem::Unsigned(n)),
{
    let mut out = Vec::new();
    into_writer(&n, &mut out).expect("a vector takes every write");
    out
}

/// `ciborium::from_reader`: the unsigned integer at the start of `data`, or `None`
/// where the bytes begin with no item or with another kind of item.
#[verifier::external_body]
pub(crate) fn decode_unsigned(data: &[u8]) -> (r: Option<u64>)
    ensures
        r == match cbor_decoding(data@) {
            Some(CborItem::Unsigned(n)) => Some(n),
            _ => None,
        },
{
    from_reader::<Value, _>(data).ok()?.as_integer()?.try_into().ok()
}

/// The binary form of a text string.
pub(crate) fn encode_text(text: &str) -> (out: Vec<u8>)
    ensures
        out@ == cbor_encoding(CborItem::Text(text@)),
        cbor_decoding(out@) == Some(CborItem::Text(text@)),
{
    encode(&Cbor::Text(text.to_string()))
}

/// The binary form of a byte string.
pub(crate) fn encode_bytes(bytes: &[u8]) -> (out: Vec<u8>)
    ensures
        out@ == cbor_encoding(CborItem::Bytes(bytes@)),
        cbor_decoding(out@) == Some(CborItem::Bytes(bytes@)),
{
    encode(&Cbor::Bytes(crate::text::copy_bytes(bytes)))
}

/// The binary form of the array of the items that are read from `parts`.
pub(crate) fn encode_list(parts: Vec<Vec<u8>>) -> (out: Vec<u8>)
    requires
        all_readable(part_views(parts@)),
    ensures
        out@ == cbor_encoding(CborItem::List(items_of(part_views(parts@)))),
        structural(CborItem::List(items_of(part_views(parts@))), ROUND_TRIP_DEPTH as nat)
            ==> cbor_decoding(out@) == Some(CborItem::List(items_of(part_views(parts@)))),
        parts.len() > 0 ==> out@.len() > 1,
{
    encode(&Cbor::List(parts))
}

/// The binary form of the map of the entries that are read from `parts`.
pub(crate) fn encode_dict(parts: Vec<(Vec<u8>, Vec<u8>)>) -> (out: Vec<u8>)
    requires
        entries_readable(entry_views(parts@)),
    ensures
        out@ == cbor_encoding(CborItem::Dict(entries_of(entry_views(parts@)))),
        structural(CborItem::Dict(entries_of(entry_views(parts@))), ROUND_TRIP_DEPTH as nat)
            ==> cbor_decoding(out@) == Some(CborItem::Dict(entries_of(entry_views(parts@)))),
        parts.len() > 0 ==> out@.len() > 1,
{
    encode(&Cbor::Dict(parts))
}

/// Whether an item can be read from `data`.
pub(crate) fn is_readable(data: &[u8]) -> (r: bool)
    ensures
        r == cbor_decoding(data@) is Some,
{
    decode(data).is_some()
}

} // verus!

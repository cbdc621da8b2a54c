//! Bounded parsing of preference plists.
//!
//! A plist is first walked as a stream of structural events so that its size
//! and nesting can be bounded before any value tree is built; only a plist
//! that passes those bounds is decoded into a [`PlistValue`].

use std::io::Cursor;

use vstd::prelude::*;

use crate::binding::{is_schema_error, schema_error, ScanError};
use crate::text::{decimal, push_decimal, str_eq};

verus! {

broadcast use vstd::string::group_string_axioms;

/// Preference files should be small. This cap keeps a malicious symlink,
/// special file or corrupted plist from making a scan allocate without bound.
pub const MAX_PLIST_BYTES: u64 = 16777216;
/// Bound on nesting, so that a compact but deeply nested plist cannot exhaust
/// the stack when it is decoded.
pub const MAX_PLIST_DEPTH: usize = 128;
/// Bound on the number of events, which limits the work spent on extremely
/// wide documents.
pub const MAX_PLIST_EVENTS: usize = 100000;

/// A decoded plist value.
#[derive(Debug)]
pub enum PlistValue {
    Array(Vec<PlistValue>),
    /// Entries in document order.
    Dictionary(Vec<(String, PlistValue)>),
    Boolean(bool),
    Data(Vec<u8>),
    Date,
    Real,
    /// The integer, when it fits in an `i64`.
    Integer(Option<i64>),
    String(String),
    Uid(u64),
    /// A kind of value this library does not read.
    Other,
}

/// The structural shape of one event of a plist's event stream.
#[derive(Debug)]
pub enum PlistToken {
    StartArray,
    StartDictionary,
    EndCollection,
    /// A leaf value (boolean, data, date, integer, real, string or uid).
    Scalar,
    /// The reader reported this parse error.
    Error(String),
}

/// Whether the keys of dictionary entries are distinct.
pub open spec fn keys_distinct(entries: Seq<(String, PlistValue)>) -> bool {
    forall|i: int, j: int| 0 <= i < j < entries.len() ==> entries[i].0@ != entries[j].0@
}

/// Whether every dictionary in a value has distinct keys.
pub open spec fn well_keyed(v: PlistValue) -> bool
    decreases v,
{
    match v {
        PlistValue::Array(items) => forall|i: int|
            0 <= i < items@.len() ==> well_keyed(#[trigger] items@[i]),
        PlistValue::Dictionary(entries) => keys_distinct(entries@) && forall|i: int|
            0 <= i < entries@.len() ==> well_keyed(#[trigger] entries@[i].1),
        _ => true,
    }
}

#[verifier::external_type_specification]
#[verifier::external_body]
pub struct ExPlistValue(plist::Value);

/// A `plist::stream::Reader` over a copy of a plist's bytes. (Verus does not
/// take a declaration of the reader type itself: its bounds name `Read` and
/// `Seek`.)
#[verifier::external_body]
pub struct EventReader {
    reader: plist::stream::Reader<Cursor<Vec<u8>>>,
}

/// The bytes a plist event reader reads.
pub uninterp spec fn reader_source(reader: EventReader) -> Seq<u8>;

/// How many times `next` has been called on a plist event reader.
pub uninterp spec fn reader_calls(reader: EventReader) -> nat;

/// The shape of what the call of `next` numbered `i` (from zero) yields on a
/// `plist::stream::Reader` over `bytes`: `None` at the end of the stream, a
/// parse error with its text, or the event's shape.
pub uninterp spec fn stream_item(bytes: Seq<u8>, i: nat) -> Option<PlistToken>;

/// What `plist::Value::from_reader` decodes from `bytes`: the value, or the
/// text of its error.
pub uninterp spec fn plist_decoded(bytes: Seq<u8>) -> Result<PlistValue, Seq<char>>;

/// Calls `plist::stream::Reader::new` on a cursor over a copy of `bytes`.
/// Claimed: the reader reads exactly `bytes`, and `next` has not been called
/// on it yet.
#[verifier::external_body]
fn open_reader(bytes: &[u8]) -> (r: EventReader)
    ensures
        reader_source(r) == bytes@,
        reader_calls(r) == 0,
{
    EventReader { reader: plist::stream::Reader::new(Cursor::new(bytes.to_vec())) }
}

/// Calls `next` on a plist event reader once and reports the shape of what
/// it yields. Claimed: the result is the named item for the reader's bytes
/// and the number of earlier calls; the reader keeps its bytes and counts
/// the call.
#[verifier::external_body]
fn next_token(reader: &mut EventReader) -> (t: Option<PlistToken>)
    ensures
        t == stream_item(reader_source(*old(reader)), reader_calls(*old(reader))),
        reader_source(*final(reader)) == reader_source(*old(reader)),
        reader_calls(*final(reader)) == reader_calls(*old(reader)) + 1,
{
    match reader.reader.next() {
        None => None,
        Some(Ok(plist::stream::Event::StartArray(_))) => Some(PlistToken::StartArray),
        Some(Ok(plist::stream::Event::StartDictionary(_))) => Some(PlistToken::StartDictionary),
        Some(Ok(plist::stream::Event::EndCollection)) => Some(PlistToken::EndCollection),
        Some(Ok(_)) => Some(PlistToken::Scalar),
        Some(Err(error)) => Some(PlistToken::Error(error.to_string())),
    }
}

/// Converts a decoded `plist::Value` into the library's value type, variant
/// for variant (used only inside [`decode_plist`]).
#[verifier::external_body]
fn value_of(value: plist::Value) -> PlistValue {
    match value {
        plist::Value::Array(items) => PlistValue::Array(items.into_iter().map(value_of).collect()),
        plist::Value::Dictionary(dict) => PlistValue::Dictionary(
            dict.into_iter().map(|(k, v)| (k, value_of(v))).collect(),
        ),
        plist::Value::Boolean(b) => PlistValue::Boolean(b),
        plist::Value::Data(d) => PlistValue::Data(d),
        plist::Value::Date(_) => PlistValue::Date,
        plist::Value::Real(_) => PlistValue::Real,
        plist::Value::Integer(i) => PlistValue::Integer(i.as_signed()),
        plist::Value::String(s) => PlistValue::String(s),
        plist::Value::Uid(u) => PlistValue::Uid(u.get()),
        _ => PlistValue::Other,
    }
}

/// Calls `plist::Value::from_reader` on `bytes`, whose event stream has
/// passed the size and nesting bounds (so that building, converting and
/// dropping the value stays within the nesting bound). Claimed: the result
/// is the named decoding of `bytes` (an error carries the error's text),
/// and the keys of each dictionary in it are distinct
/// (`plist::Dictionary` is a map).
#[verifier::external_body]
fn decode_plist(bytes: &[u8]) -> (r: Result<PlistValue, String>)
    requires
        stream_fault(bytes@) is None,
    ensures
        r matches Ok(v) ==> well_keyed(v),
        plist_decoded(bytes@) == match r {
            Ok(v) => Ok::<PlistValue, Seq<char>>(v),
            Err(e) => Err::<PlistValue, Seq<char>>(e@),
        },
{
    match plist::Value::from_reader(Cursor::new(bytes)) {
        Ok(value) => Ok(value_of(value)),
        Err(error) => Err(error.to_string()),
    }
}

/// Why a plist's event stream was rejected before decoding.
pub enum PlistFault {
    /// The reader reported this error.
    Parse(Seq<char>),
    TooManyEvents,
    TooDeep,
    UnmatchedEnd,
    Unclosed,
}

/// One step of the walk over a plist's event stream, on the item numbered
/// `i` at nesting `depth`: the nesting after it, or how the walk ends (with
/// a fault, or without one at the end of a balanced stream). Each event is
/// first checked for a reader error, then against the event bound (`i`
/// events have been kept so far), then for nesting.
pub open spec fn stream_step(item: Option<PlistToken>, i: nat, depth: nat) -> Result<nat, Option<PlistFault>> {
    match item {
        None => Err(if depth != 0 { Some(PlistFault::Unclosed) } else { None }),
        Some(PlistToken::Error(m)) => Err(Some(PlistFault::Parse(m@))),
        Some(t) => if i >= MAX_PLIST_EVENTS {
            Err(Some(PlistFault::TooManyEvents))
        } else {
            match t {
                PlistToken::StartArray | PlistToken::StartDictionary => if depth + 1 > MAX_PLIST_DEPTH {
                    Err(Some(PlistFault::TooDeep))
                } else {
                    Ok(depth + 1)
                },
                PlistToken::EndCollection => if depth == 0 {
                    Err(Some(PlistFault::UnmatchedEnd))
                } else {
                    Ok((depth - 1) as nat)
                },
                _ => Ok(depth),
            }
        },
    }
}

/// The outcome of walking the event stream of `bytes` from the item
/// numbered `i` at nesting `depth`. The walk reads at most
/// `MAX_PLIST_EVENTS + 1` items.
pub open spec fn walk_stream(bytes: Seq<u8>, i: nat, depth: nat) -> Option<PlistFault>
    decreases MAX_PLIST_EVENTS + 1 - i,
{
    match stream_step(stream_item(bytes, i), i, depth) {
        Err(f) => f,
        Ok(d) => if i < MAX_PLIST_EVENTS { walk_stream(bytes, i + 1, d) } else { None },
    }
}

/// The fault of the event stream of `bytes`, if any.
pub open spec fn stream_fault(bytes: Seq<u8>) -> Option<PlistFault> {
    walk_stream(bytes, 0, 0)
}

/// The message a fault is reported with.
pub open spec fn fault_message(f: PlistFault) -> Seq<char> {
    match f {
        PlistFault::Parse(m) => "plist parse: "@ + m,
        PlistFault::TooManyEvents => "plist exceeds the "@ + decimal(MAX_PLIST_EVENTS as nat)
            + "-event safety limit"@,
        PlistFault::TooDeep => "plist exceeds the "@ + decimal(MAX_PLIST_DEPTH as nat)
            + "-level nesting safety limit"@,
        PlistFault::UnmatchedEnd => "plist contains an unmatched collection end"@,
        PlistFault::Unclosed => "plist ended before all collections were closed"@,
    }
}

/// The value a plist held in `bytes` parses to, or the message of the error
/// that parsing it reports: a fault of the event stream, else whatever
/// decoding gives.
pub open spec fn plist_root(bytes: Seq<u8>) -> Result<PlistValue, Seq<char>> {
    match stream_fault(bytes) {
        Some(f) => Err(fault_message(f)),
        None => match plist_decoded(bytes) {
            Ok(v) => Ok(v),
            Err(m) => Err("plist parse: "@ + m),
        },
    }
}

/// The message for a plist read that exceeded `limit` bytes.
pub open spec fn oversize_message(limit: nat) -> Seq<char> {
    "plist exceeds the "@ + decimal(limit) + "-byte safety limit"@
}

/// What reading a preference plist gives, from the bytes of a bounded read of
/// it: too many bytes are refused, the rest is parsed.
pub open spec fn read_root(bytes: Seq<u8>) -> Result<PlistValue, Seq<char>> {
    if bytes.len() > MAX_PLIST_BYTES {
        Err(oversize_message(MAX_PLIST_BYTES as nat))
    } else {
        plist_root(bytes)
    }
}

/// `r` is the value `expected` holds, or a schema error about `path` with the
/// message `expected` holds.
pub open spec fn reports<T>(r: Result<T, ScanError>, path: Seq<char>, expected: Result<T, Seq<char>>) -> bool {
    match expected {
        Ok(v) => r == Ok::<T, ScanError>(v),
        Err(m) => r matches Err(e) && is_schema_error(e, path, m),
    }
}

/// A string holding `prefix`, the decimal rendering of `n`, then `suffix`.
fn message_with_number(prefix: &str, n: u64, suffix: &str) -> (s: String)
    ensures
        s@ == prefix@ + decimal(n as nat) + suffix@,
{
    let mut s = prefix.to_owned();
    push_decimal(&mut s, n);
    s.append(suffix);
    s
}

/// Why an event stream was rejected, as the walk over it reports it.
#[derive(Debug)]
pub enum StreamFault {
    /// The reader reported this error.
    Parse(String),
    TooManyEvents,
    TooDeep,
    UnmatchedEnd,
    Unclosed,
}

impl View for StreamFault {
    type V = PlistFault;

    open spec fn view(&self) -> PlistFault {
        match self {
            StreamFault::Parse(m) => PlistFault::Parse(m@),
            StreamFault::TooManyEvents => PlistFault::TooManyEvents,
            StreamFault::TooDeep => PlistFault::TooDeep,
            StreamFault::UnmatchedEnd => PlistFault::UnmatchedEnd,
            StreamFault::Unclosed => PlistFault::Unclosed,
        }
    }
}

/// The view of an optional fault.
pub open spec fn fault_view(f: Option<StreamFault>) -> Option<PlistFault> {
    match f {
        Some(x) => Some(x@),
        None => None,
    }
}

/// Take one step of the walk over a plist's event stream (see
/// [`stream_step`]): `Ok` with the nesting after the item, or `Err` with
/// how the walk ends.
pub fn step_stream(item: &Option<PlistToken>, count: usize, depth: usize) -> (r: Result<usize, Option<StreamFault>>)
    ensures
        match stream_step(*item, count as nat, depth as nat) {
            Ok(d) => r matches Ok(e) && e == d,
            Err(f) => r matches Err(g) && fault_view(g) == f,
        },
{
    match item {
        None => Err(if depth != 0 { Some(StreamFault::Unclosed) } else { None }),
        Some(PlistToken::Error(m)) => Err(Some(StreamFault::Parse(m.clone()))),
        Some(t) => if count >= MAX_PLIST_EVENTS {
            Err(Some(StreamFault::TooManyEvents))
        } else {
            match t {
                PlistToken::StartArray | PlistToken::StartDictionary => if depth >= MAX_PLIST_DEPTH {
                    Err(Some(StreamFault::TooDeep))
                } else {
                    Ok(depth + 1)
                },
                PlistToken::EndCollection => if depth == 0 {
                    Err(Some(StreamFault::UnmatchedEnd))
                } else {
                    Ok(depth - 1)
                },
                _ => Ok(depth),
            }
        },
    }
}

/// Walk the event stream of the plist in `bytes`, reading one event at a
/// time and stopping at the first fault: at most `MAX_PLIST_EVENTS + 1`
/// events are read, however many the stream holds.
pub fn check_stream(bytes: &[u8]) -> (r: Option<StreamFault>)
    ensures
        fault_view(r) == stream_fault(bytes@),
{
    let mut reader = open_reader(bytes);
    let mut depth: usize = 0;
    let mut i: usize = 0;
    loop
        invariant
            reader_source(reader) == bytes@,
            reader_calls(reader) == i,
            i <= MAX_PLIST_EVENTS,
            depth <= MAX_PLIST_DEPTH,
            stream_fault(bytes@) == walk_stream(bytes@, i as nat, depth as nat),
        decreases MAX_PLIST_EVENTS - i,
    {
        let item = next_token(&mut reader);
        match step_stream(&item, i, depth) {
            Err(f) => return f,
            Ok(d) => {
                depth = d;
                i = i + 1;
            },
        }
    }
}

/// The schema error a fault of the event stream of `path` is reported with.
pub fn fault_error(path: &str, fault: &StreamFault) -> (e: ScanError)
    ensures
        is_schema_error(e, path@, fault_message(fault@)),
{
    let message = match fault {
        StreamFault::Parse(m) => {
            let mut s = "plist parse: ".to_owned();
            s.append(m.as_str());
            s
        },
        StreamFault::TooManyEvents => message_with_number(
            "plist exceeds the ",
            MAX_PLIST_EVENTS as u64,
            "-event safety limit",
        ),
        StreamFault::TooDeep => message_with_number(
            "plist exceeds the ",
            MAX_PLIST_DEPTH as u64,
            "-level nesting safety limit",
        ),
        StreamFault::UnmatchedEnd => "plist contains an unmatched collection end".to_owned(),
        StreamFault::Unclosed => "plist ended before all collections were closed".to_owned(),
    };
    schema_error(path, message)
}

/// Parse a plist held in `bytes` (read from `path`), refusing streams that
/// are too long, too deeply nested or unbalanced before decoding them.
pub fn parse_value_bytes(bytes: &[u8], path: &str) -> (r: Result<PlistValue, ScanError>)
    ensures
        reports(r, path@, plist_root(bytes@)),
        r matches Ok(v) ==> well_keyed(v),
{
    if let Some(fault) = check_stream(bytes) {
        return Err(fault_error(path, &fault));
    }
    match decode_plist(bytes) {
        Ok(value) => Ok(value),
        Err(error) => {
            let mut message = "plist parse: ".to_owned();
            message.append(error.as_str());
            Err(schema_error(path, message))
        },
    }
}

/// Accept the bytes of a bounded read of `path` (one that stops after
/// `limit + 1` bytes) when they do not exceed `limit`.
pub fn read_limited(bytes: &[u8], path: &str, limit: u64) -> (r: Result<Vec<u8>, ScanError>)
    ensures
        bytes@.len() <= limit ==> (r matches Ok(v) && v@ == bytes@),
        bytes@.len() > limit ==> (r matches Err(e) && is_schema_error(
            e,
            path@,
            oversize_message(limit as nat),
        )),
{
    if bytes.len() as u64 > limit {
        return Err(schema_error(path, message_with_number("plist exceeds the ", limit, "-byte safety limit")));
    }
    let mut v: Vec<u8> = Vec::new();
    let mut i: usize = 0;
    while i < bytes.len()
        invariant
            i <= bytes@.len(),
            v@ == bytes@.take(i as int),
        decreases bytes.len() - i,
    {
        v.push(bytes[i]);
        assert(bytes@.take(i as int).push(bytes@[i as int]) =~= bytes@.take(i + 1));
        i = i + 1;
    }
    assert(bytes@.take(bytes@.len() as int) =~= bytes@);
    Ok(v)
}

/// Parse the preference plist `path` from the bytes of a bounded read of it
/// (one that stops after `MAX_PLIST_BYTES + 1` bytes).
pub fn parse_value(bytes: &[u8], path: &str) -> (r: Result<PlistValue, ScanError>)
    ensures
        reports(r, path@, read_root(bytes@)),
        r matches Ok(v) ==> well_keyed(v),
{
    let bytes = read_limited(bytes, path, MAX_PLIST_BYTES)?;
    parse_value_bytes(bytes.as_slice(), path)
}

/// The entries of a dictionary value.
pub open spec fn spec_as_dictionary(v: PlistValue) -> Option<Seq<(String, PlistValue)>> {
    match v {
        PlistValue::Dictionary(d) => Some(d@),
        _ => None,
    }
}

/// The items of an array value.
pub open spec fn spec_as_array(v: PlistValue) -> Option<Seq<PlistValue>> {
    match v {
        PlistValue::Array(a) => Some(a@),
        _ => None,
    }
}

/// The value of a boolean.
pub open spec fn spec_as_boolean(v: PlistValue) -> Option<bool> {
    match v {
        PlistValue::Boolean(b) => Some(b),
        _ => None,
    }
}

/// The value of an integer that fits in an `i64`.
pub open spec fn spec_as_signed_integer(v: PlistValue) -> Option<i64> {
    match v {
        PlistValue::Integer(i) => i,
        _ => None,
    }
}

/// The characters of a string value.
pub open spec fn spec_as_string(v: PlistValue) -> Option<Seq<char>> {
    match v {
        PlistValue::String(s) => Some(s@),
        _ => None,
    }
}

/// The value stored under `key` in dictionary entries (the first entry with
/// that key).
pub open spec fn lookup(entries: Seq<(String, PlistValue)>, key: Seq<char>) -> Option<PlistValue>
    decreases entries.len(),
{
    if entries.len() == 0 {
        None
    } else if entries[0].0@ == key {
        Some(entries[0].1)
    } else {
        lookup(entries.drop_first(), key)
    }
}

/// The value stored under `key` when `v` is a dictionary.
pub open spec fn field(v: PlistValue, key: Seq<char>) -> Option<PlistValue> {
    match spec_as_dictionary(v) {
        Some(entries) => lookup(entries, key),
        None => None,
    }
}

proof fn lemma_lookup_skip(entries: Seq<(String, PlistValue)>, key: Seq<char>, i: int)
    requires
        0 <= i < entries.len(),
        entries[i].0@ != key,
    ensures
        lookup(entries.skip(i), key) == lookup(entries.skip(i + 1), key),
{
    assert(entries.skip(i).drop_first() =~= entries.skip(i + 1));
}

impl PlistValue {
    /// The entries, if this is a dictionary.
    pub fn as_dictionary(&self) -> (r: Option<&Vec<(String, PlistValue)>>)
        ensures
            r is Some <==> spec_as_dictionary(*self) is Some,
            r matches Some(d) ==> spec_as_dictionary(*self) == Some(d@),
    {
        match self {
            PlistValue::Dictionary(d) => Some(d),
            _ => None,
        }
    }

    /// The items, if this is an array.
    pub fn as_array(&self) -> (r: Option<&Vec<PlistValue>>)
        ensures
            r is Some <==> spec_as_array(*self) is Some,
            r matches Some(a) ==> spec_as_array(*self) == Some(a@),
    {
        match self {
            PlistValue::Array(a) => Some(a),
            _ => None,
        }
    }

    /// The value, if this is a boolean.
    pub fn as_boolean(&self) -> (r: Option<bool>)
        ensures
            r == spec_as_boolean(*self),
    {
        match self {
            PlistValue::Boolean(b) => Some(*b),
            _ => None,
        }
    }

    /// The value, if this is an integer that fits in an `i64`.
    pub fn as_signed_integer(&self) -> (r: Option<i64>)
        ensures
            r == spec_as_signed_integer(*self),
    {
        match self {
            PlistValue::Integer(i) => *i,
            _ => None,
        }
    }

    /// The text, if this is a string.
    pub fn as_string(&self) -> (r: Option<&str>)
        ensures
            r is Some <==> spec_as_string(*self) is Some,
            r matches Some(s) ==> spec_as_string(*self) == Some(s@),
    {
        match self {
            PlistValue::String(s) => Some(s.as_str()),
            _ => None,
        }
    }

    /// The value under `key`, if this is a dictionary that has one.
    pub fn get(&self, key: &str) -> (r: Option<&PlistValue>)
        ensures
            r is Some <==> field(*self, key@) is Some,
            r matches Some(v) ==> field(*self, key@) == Some(*v),
    {
        match self {
            PlistValue::Dictionary(entries) => {
                let mut i: usize = 0;
                assert(entries@.skip(0) =~= entries@);
                while i < entries.len()
                    invariant
                        spec_as_dictionary(*self) == Some(entries@),
                        i <= entries@.len(),
                        lookup(entries@, key@) == lookup(entries@.skip(i as int), key@),
                    decreases entries.len() - i,
                {
                    if str_eq(entries[i].0.as_str(), key) {
                        let ghost rest = entries@.skip(i as int);
                        assert(rest.len() > 0 && rest[0] == entries@[i as int]);
                        assert(lookup(rest, key@) == Some(entries@[i as int].1));
                        return Some(&entries[i].1);
                    }
                    proof {
                        lemma_lookup_skip(entries@, key@, i as int);
                    }
                    i = i + 1;
                }
                assert(entries@.skip(i as int).len() == 0);
                None
            },
            _ => None,
        }
    }
}

} // verus!

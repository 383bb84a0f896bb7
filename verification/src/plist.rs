//! Property lists, as the flat token stream that spells one out.
//!
//! A value starts at a token: a scalar is that token alone, a collection runs to
//! the token that closes it. Values are therefore named by their position.

use std::io::{BufReader, Cursor};
use std::time::{Duration, SystemTime, UNIX_EPOCH};

use plist::stream::Event::{
    self, Boolean, Data, EndCollection, Integer, Real, StartArray, StartDictionary, Uid,
};
use plist::stream::{Reader, XmlReader};
use plist::Value;
use vstd::prelude::*;

use self::Token::{Array, Bool, Bytes, Dict, End, Fraction, Ident, Int, Moment, Text};
use crate::bytes::{begins, begins_with};
use crate::text::{opt_text, same};
use crate::xml_date::{is_timely, is_timely_of};

verus! {

/// One token of a property list.
#[derive(Debug)]
pub enum Token {
    Array,
    Dict,
    End,
    Bool(bool),
    Bytes(Vec<u8>),
    /// A date, by its distance in nanoseconds: from the Unix epoch, or else before it.
    Moment(Result<u128, u128>),
    /// A whole number, in decimal.
    Int(String),
    /// A real number, as its `Debug` form writes it: a whole one with its fraction.
    Fraction(String),
    Text(String),
    Ident(u64),
}

/// The model of a [`Token`].
pub enum TokenView {
    Array,
    Dict,
    End,
    Bool(bool),
    Bytes(Seq<u8>),
    Moment(Result<u128, u128>),
    Int(Seq<char>),
    Fraction(Seq<char>),
    Text(Seq<char>),
    Ident(u64),
}

impl View for Token {
    type V = TokenView;

    open spec fn view(&self) -> TokenView {
        match *self {
            Token::Array => TokenView::Array,
            Token::Dict => TokenView::Dict,
            Token::End => TokenView::End,
            Token::Bool(b) => TokenView::Bool(b),
            Token::Bytes(d) => TokenView::Bytes(d@),
            Token::Moment(d) => TokenView::Moment(d),
            Token::Int(n) => TokenView::Int(n@),
            Token::Fraction(r) => TokenView::Fraction(r@),
            Token::Text(s) => TokenView::Text(s@),
            Token::Ident(n) => TokenView::Ident(n),
        }
    }
}

/// The views of a token list.
pub open spec fn tokens(v: Seq<Token>) -> Seq<TokenView> {
    v.map_values(|t: Token| t@)
}

/// The view of an optional token list.
pub open spec fn opt_tokens(o: Option<Vec<Token>>) -> Option<Seq<TokenView>> {
    match o {
        Some(v) => Some(tokens(v@)),
        None => None,
    }
}

/// How deep a property list may nest. Reading a deeper one, and letting go of it, would
/// exhaust the stack.
pub const MAX_DEPTH: usize = 512;

/// How many events a property list may take. A binary one can refer to a collection many
/// times over, and so spell out far more than it stores.
pub const MAX_EVENTS: usize = 0x40_0000;

/// What an event does to the nesting.
#[derive(Debug, Clone, Copy, PartialEq, Eq, Structural)]
pub enum Bracket {
    Open,
    Close,
    Neither,
}

/// The first events, `limit` at most, that `plist::stream::Reader` reads out of `bytes`
/// before it fails or ends, by what they do to the nesting.
pub uninterp spec fn plist_shape(bytes: Seq<u8>, limit: nat) -> Seq<Bracket>;

/// The same of `plist::stream::XmlReader`.
pub uninterp spec fn plist_xml_shape(bytes: Seq<u8>, limit: nat) -> Seq<Bracket>;

/// The token stream of the property list that `plist::Value::from_reader` reads
/// out of `bytes`, in any of the encodings; none where it cannot.
pub uninterp spec fn plist_value(bytes: Seq<u8>) -> Option<Seq<TokenView>>;

/// The same of `plist::Value::from_reader_xml`.
pub uninterp spec fn plist_xml_value(bytes: Seq<u8>) -> Option<Seq<TokenView>>;

/// How deep the first `n` events leave the nesting.
pub open spec fn depth_after(shape: Seq<Bracket>, n: nat) -> nat
    decreases n,
{
    if n == 0 || n > shape.len() {
        0
    } else {
        let before = depth_after(shape, (n - 1) as nat);
        match shape[n - 1] {
            Bracket::Open => before + 1,
            Bracket::Close => if before > 0 {
                (before - 1) as nat
            } else {
                0
            },
            Bracket::Neither => before,
        }
    }
}

/// Whether a shape stays within the limits.
pub open spec fn is_modest(shape: Seq<Bracket>) -> bool {
    &&& shape.len() < MAX_EVENTS
    &&& forall|n: nat| n <= shape.len() ==> #[trigger] depth_after(shape, n) <= MAX_DEPTH
}

/// Whether the dates of a property list can be taken to universal time: those of a binary
/// one always.
pub open spec fn has_sound_dates(bytes: Seq<u8>) -> bool {
    begins(bytes, seq![0x62u8, 0x70, 0x6c, 0x69, 0x73, 0x74, 0x30, 0x30]) || is_timely(bytes)
}

/// Whether a property list can be read, in any of the encodings.
pub open spec fn is_readable(bytes: Seq<u8>) -> bool {
    has_sound_dates(bytes) && is_modest(plist_shape(bytes, MAX_EVENTS as nat))
}

/// Whether an XML property list can be read.
pub open spec fn is_readable_xml(bytes: Seq<u8>) -> bool {
    is_timely(bytes) && is_modest(plist_xml_shape(bytes, MAX_EVENTS as nat))
}

/// The token stream of the property list in `bytes`, in any of the encodings; none where
/// there is none that can be read.
pub open spec fn plist_tokens(bytes: Seq<u8>) -> Option<Seq<TokenView>> {
    if is_readable(bytes) {
        plist_value(bytes)
    } else {
        None
    }
}

/// The token stream of the XML property list in `bytes`; none where there is none that can
/// be read.
pub open spec fn plist_xml_tokens(bytes: Seq<u8>) -> Option<Seq<TokenView>> {
    if is_readable_xml(bytes) {
        plist_xml_value(bytes)
    } else {
        None
    }
}

/// The events of a `plist::stream::Reader` over `bytes`, up to the first failure and to
/// `limit` of them, by what they do to the nesting: a function of both alone, on a machine
/// whose `SystemTime` holds every date that plist takes. An XML date that its reader cannot
/// take to universal time is left out.
#[verifier::external_body]
fn shape_of(bytes: &[u8], limit: usize) -> (r: Vec<Bracket>)
    requires
        has_sound_dates(bytes@),
    ensures
        r@ == plist_shape(bytes@, limit as nat),
{
    Reader::new(Cursor::new(bytes)).map_while(Result::ok).take(limit).map(|event| match event {
        StartArray(_) => Bracket::Open,
        StartDictionary(_) => Bracket::Open,
        EndCollection => Bracket::Close,
        _ => Bracket::Neither,
    }).collect()
}

/// The events of a `plist::stream::XmlReader` over `bytes`, up to the first failure and to
/// `limit` of them, by what they do to the nesting: a function of both alone, on such a
/// machine. A date that it cannot take to universal time is left out.
#[verifier::external_body]
fn xml_shape_of(bytes: &[u8], limit: usize) -> (r: Vec<Bracket>)
    requires
        is_timely(bytes@),
    ensures
        r@ == plist_xml_shape(bytes@, limit as nat),
{
    let reader = XmlReader::new(BufReader::new(Cursor::new(bytes)));
    reader.map_while(Result::ok).take(limit).map(|event| match event {
        StartArray(_) => Bracket::Open,
        StartDictionary(_) => Bracket::Open,
        EndCollection => Bracket::Close,
        _ => Bracket::Neither,
    }).collect()
}

/// `plist::Value::from_reader` over `bytes`, its value spelled out event by event.
/// The outcome depends on `bytes` alone, on a machine whose `SystemTime` counts nanoseconds
/// and holds every date that plist takes. A property list that nests too deep, or has a date
/// that its reader cannot take to universal time, is left out.
#[verifier::external_body]
fn value_of(bytes: &[u8]) -> (r: Option<Vec<Token>>)
    requires
        is_readable(bytes@),
    ensures
        opt_tokens(r) == plist_value(bytes@),
{
    Some(Value::from_reader(Cursor::new(bytes)).ok()?.events().map(|event| match event {
        StartArray(_) => Array,
        StartDictionary(_) => Dict,
        EndCollection => End,
        Boolean(b) => Bool(b),
        Data(d) => Bytes(d.into()),
        Event::Date(d) => Moment(SystemTime::from(d).duration_since(UNIX_EPOCH).map(|s| s.as_nanos()).map_err(|e| e.duration().as_nanos())),
        Integer(i) => Int(i.to_string()),
        Real(r) => Fraction(format!("{r:?}")),
        Event::String(s) => Text(s.into()),
        Uid(u) => Ident(u.get()),
        _ => End,
    }).collect())
}

/// `plist::Value::from_reader_xml` over `bytes`, its value spelled out event by
/// event. The outcome depends on `bytes` alone, on such a machine. A property list that nests
/// too deep, or has a date that its reader cannot take to universal time, is left out.
#[verifier::external_body]
fn xml_value_of(bytes: &[u8]) -> (r: Option<Vec<Token>>)
    requires
        is_readable_xml(bytes@),
    ensures
        opt_tokens(r) == plist_xml_value(bytes@),
{
    Some(Value::from_reader_xml(Cursor::new(bytes)).ok()?.events().map(|event| match event {
        StartArray(_) => Array,
        StartDictionary(_) => Dict,
        EndCollection => End,
        Boolean(b) => Bool(b),
        Data(d) => Bytes(d.into()),
        Event::Date(d) => Moment(SystemTime::from(d).duration_since(UNIX_EPOCH).map(|s| s.as_nanos()).map_err(|e| e.duration().as_nanos())),
        Integer(i) => Int(i.to_string()),
        Real(r) => Fraction(format!("{r:?}")),
        Event::String(s) => Text(s.into()),
        Uid(u) => Ident(u.get()),
        _ => End,
    }).collect())
}

fn is_modest_of(shape: &Vec<Bracket>) -> (r: bool)
    ensures
        r == is_modest(shape@),
{
    if shape.len() >= MAX_EVENTS {
        return false;
    }
    let mut depth: usize = 0;
    let mut i: usize = 0;
    while i < shape.len()
        invariant
            i <= shape@.len(),
            depth == depth_after(shape@, i as nat),
            depth <= MAX_DEPTH,
            forall|n: nat| n <= i ==> #[trigger] depth_after(shape@, n) <= MAX_DEPTH,
        decreases shape.len() - i,
    {
        match shape[i] {
            Bracket::Open => {
                depth = depth + 1;
            },
            Bracket::Close => {
                if depth > 0 {
                    depth = depth - 1;
                }
            },
            Bracket::Neither => {},
        }
        i = i + 1;
        assert(depth == depth_after(shape@, i as nat));
        if depth > MAX_DEPTH {
            return false;
        }
    }
    true
}

/// The property list in `bytes`, in any of the encodings.
pub fn parse(bytes: &[u8]) -> (r: Option<Vec<Token>>)
    ensures
        opt_tokens(r) == plist_tokens(bytes@),
{
    let magic: [u8; 8] = [0x62, 0x70, 0x6c, 0x69, 0x73, 0x74, 0x30, 0x30];
    assert(magic@ =~= seq![0x62u8, 0x70, 0x6c, 0x69, 0x73, 0x74, 0x30, 0x30]);
    if !begins_with(bytes, magic.as_slice()) && !is_timely_of(bytes) {
        return None;
    }
    let shape = shape_of(bytes, MAX_EVENTS);
    if is_modest_of(&shape) {
        value_of(bytes)
    } else {
        None
    }
}

/// The XML property list in `bytes`.
pub fn parse_xml(bytes: &[u8]) -> (r: Option<Vec<Token>>)
    ensures
        opt_tokens(r) == plist_xml_tokens(bytes@),
{
    if !is_timely_of(bytes) {
        return None;
    }
    let shape = xml_shape_of(bytes, MAX_EVENTS);
    if is_modest_of(&shape) {
        xml_value_of(bytes)
    } else {
        None
    }
}

/// Whether a date, by its whole seconds and the nanoseconds beyond, from the Unix epoch or
/// else before it, lies in the years that RFC 3339 can write: those of four digits.
pub open spec fn is_writable(since: Result<(u64, u32), (u64, u32)>) -> bool {
    match since {
        Ok((secs, nanos)) => secs < 253_402_300_800 && nanos < 1_000_000_000,
        Err((secs, nanos)) => nanos < 1_000_000_000 && (secs < 62_167_219_200 || (secs
            == 62_167_219_200 && nanos == 0)),
    }
}

/// What the `Debug` form of a `plist::Date` writes: the date in RFC 3339.
pub uninterp spec fn date_text(since: Result<(u64, u32), (u64, u32)>) -> Seq<char>;

/// The `Debug` form of the `plist::Date` for a time, which depends on the time alone, on a
/// machine whose `SystemTime` counts nanoseconds and reaches back to the year zero. It panics
/// on a year that does not have four digits.
#[verifier::external_body]
fn date_text_of(since: Result<(u64, u32), (u64, u32)>) -> (r: String)
    requires
        is_writable(since),
    ensures
        r@ == date_text(since),
{
    let time = match since {
        Ok((secs, nanos)) => UNIX_EPOCH + Duration::new(secs, nanos),
        Err((secs, nanos)) => UNIX_EPOCH - Duration::new(secs, nanos),
    };
    format!("{:?}", plist::Date::from(time))
}

/// The whole seconds and the nanoseconds beyond, where they fit.
pub open spec fn split_nanos(n: u128) -> Option<(u64, u32)> {
    if n / 1_000_000_000 <= u64::MAX {
        Some(((n / 1_000_000_000) as u64, (n % 1_000_000_000) as u32))
    } else {
        None
    }
}

/// A date in RFC 3339; none where the year does not have four digits.
pub open spec fn moment_text(m: Result<u128, u128>) -> Option<Seq<char>> {
    let since = match m {
        Ok(n) => match split_nanos(n) {
            Some(p) => Some(Ok::<(u64, u32), (u64, u32)>(p)),
            None => None,
        },
        Err(n) => match split_nanos(n) {
            Some(p) => Some(Err::<(u64, u32), (u64, u32)>(p)),
            None => None,
        },
    };
    match since {
        Some(s) => if is_writable(s) {
            Some(date_text(s))
        } else {
            None
        },
        None => None,
    }
}

fn split_nanos_of(n: u128) -> (r: Option<(u64, u32)>)
    ensures
        r == split_nanos(n),
{
    let secs: u128 = n / 1_000_000_000;
    if secs <= u64::MAX as u128 {
        Some((secs as u64, (n % 1_000_000_000) as u32))
    } else {
        None
    }
}

/// A date in RFC 3339.
pub fn moment_text_of(m: &Result<u128, u128>) -> (r: Option<String>)
    ensures
        opt_text(r) == moment_text(*m),
{
    let since: Result<(u64, u32), (u64, u32)> = match m {
        Ok(n) => match split_nanos_of(*n) {
            Some(p) => Ok(p),
            None => {
                return None;
            },
        },
        Err(n) => match split_nanos_of(*n) {
            Some(p) => Err(p),
            None => {
                return None;
            },
        },
    };
    let fits = match since {
        Ok((secs, nanos)) => secs < 253_402_300_800 && nanos < 1_000_000_000,
        Err((secs, nanos)) => nanos < 1_000_000_000 && (secs < 62_167_219_200 || (secs
            == 62_167_219_200 && nanos == 0)),
    };
    if fits {
        Some(date_text_of(since))
    } else {
        None
    }
}

/// The position past the token that closes `depth` open collections.
pub open spec fn closed_at(t: Seq<TokenView>, i: int, depth: nat) -> int
    decreases t.len() - i,
{
    if i < 0 || i >= t.len() {
        t.len() as int
    } else {
        match t[i] {
            TokenView::Array | TokenView::Dict => closed_at(t, i + 1, depth + 1),
            TokenView::End => if depth <= 1 {
                i + 1
            } else {
                closed_at(t, i + 1, (depth - 1) as nat)
            },
            _ => closed_at(t, i + 1, depth),
        }
    }
}

/// The position past the value that starts at `i`.
pub open spec fn value_end(t: Seq<TokenView>, i: int) -> int {
    if 0 <= i < t.len() && (t[i] is Array || t[i] is Dict) {
        closed_at(t, i + 1, 1)
    } else {
        i + 1
    }
}

/// Where the value of `key` starts, among the dictionary entries from `i` on.
pub open spec fn entry_from(t: Seq<TokenView>, i: int, key: Seq<char>) -> Option<int>
    decreases t.len() - i,
{
    if i < 0 || i + 1 >= t.len() {
        None
    } else {
        match t[i] {
            TokenView::Text(k) => if k == key {
                Some(i + 1)
            } else if i < value_end(t, i + 1) <= t.len() {
                entry_from(t, value_end(t, i + 1), key)
            } else {
                None
            },
            _ => None,
        }
    }
}

/// Whether a dictionary starts at `i`.
pub open spec fn dict_at(t: Seq<TokenView>, i: int) -> bool {
    0 <= i < t.len() && t[i] is Dict
}

/// Where the value of `key` starts in the dictionary at `i`.
pub open spec fn get(t: Seq<TokenView>, i: int, key: Seq<char>) -> Option<int> {
    if dict_at(t, i) {
        entry_from(t, i + 1, key)
    } else {
        None
    }
}

/// The text at `i`.
pub open spec fn text_at(t: Seq<TokenView>, i: int) -> Option<Seq<char>> {
    if 0 <= i < t.len() {
        match t[i] {
            TokenView::Text(s) => Some(s),
            _ => None,
        }
    } else {
        None
    }
}

/// The boolean at `i`.
pub open spec fn bool_at(t: Seq<TokenView>, i: int) -> Option<bool> {
    if 0 <= i < t.len() {
        match t[i] {
            TokenView::Bool(b) => Some(b),
            _ => None,
        }
    } else {
        None
    }
}

/// The text under `key` in the dictionary at `i`.
pub open spec fn get_text(t: Seq<TokenView>, i: int, key: Seq<char>) -> Option<Seq<char>> {
    match get(t, i, key) {
        Some(j) => text_at(t, j),
        None => None,
    }
}

/// The boolean under `key` in the dictionary at `i`.
pub open spec fn get_bool(t: Seq<TokenView>, i: int, key: Seq<char>) -> Option<bool> {
    match get(t, i, key) {
        Some(j) => bool_at(t, j),
        None => None,
    }
}

/// The position of the first of two keys that the dictionary at `i` holds.
pub open spec fn get_either(
    t: Seq<TokenView>,
    i: int,
    first: Seq<char>,
    second: Seq<char>,
) -> Option<int> {
    match get(t, i, first) {
        Some(j) => Some(j),
        None => get(t, i, second),
    }
}

/// The version a property list declares: its short form, else its build version.
pub open spec fn declared_version(t: Seq<TokenView>) -> Option<Seq<char>> {
    match get_either(t, 0, "CFBundleShortVersionString"@, "CFBundleVersion"@) {
        Some(j) => text_at(t, j),
        None => None,
    }
}

/// The starts of the values from `i` up to the end of their collection.
pub open spec fn items_from(t: Seq<TokenView>, i: int) -> Seq<int>
    decreases t.len() - i,
{
    if i < 0 || i >= t.len() || t[i] is End {
        Seq::empty()
    } else if i < value_end(t, i) <= t.len() {
        seq![i] + items_from(t, value_end(t, i))
    } else {
        seq![i]
    }
}

/// The starts of the items of the array at `i`.
pub open spec fn items(t: Seq<TokenView>, i: int) -> Seq<int> {
    if 0 <= i < t.len() && t[i] is Array {
        items_from(t, i + 1)
    } else {
        Seq::empty()
    }
}

/// The keys and value starts of the dictionary entries from `i` on.
pub open spec fn entries_from(t: Seq<TokenView>, i: int) -> Seq<(Seq<char>, int)>
    decreases t.len() - i,
{
    if i < 0 || i + 1 >= t.len() {
        Seq::empty()
    } else {
        match t[i] {
            TokenView::Text(k) => if i < value_end(t, i + 1) <= t.len() {
                seq![(k, i + 1)] + entries_from(t, value_end(t, i + 1))
            } else {
                seq![(k, i + 1)]
            },
            _ => Seq::empty(),
        }
    }
}

/// The entries of the dictionary at `i`.
pub open spec fn entries(t: Seq<TokenView>, i: int) -> Seq<(Seq<char>, int)> {
    if dict_at(t, i) {
        entries_from(t, i + 1)
    } else {
        Seq::empty()
    }
}

/// A value ends past its start, within the stream.
pub proof fn lemma_value_end(t: Seq<TokenView>, i: int)
    requires
        0 <= i < t.len(),
    ensures
        i < value_end(t, i) <= t.len(),
{
    lemma_closed_at(t, i + 1, 1);
}

proof fn lemma_closed_at(t: Seq<TokenView>, i: int, depth: nat)
    requires
        0 <= i <= t.len(),
    ensures
        i <= closed_at(t, i, depth) <= t.len(),
        i < t.len() ==> i < closed_at(t, i, depth),
    decreases t.len() - i,
{
    if i < t.len() {
        match t[i] {
            TokenView::Array | TokenView::Dict => lemma_closed_at(t, i + 1, depth + 1),
            TokenView::End => {
                if depth > 1 {
                    lemma_closed_at(t, i + 1, (depth - 1) as nat);
                }
            },
            _ => lemma_closed_at(t, i + 1, depth),
        }
    }
}

/// The position past the value that starts at `i`.
pub fn value_end_of(t: &Vec<Token>, i: usize) -> (r: usize)
    requires
        i < t.len(),
    ensures
        r == value_end(tokens(t@), i as int),
        i < r <= t@.len(),
{
    let ghost v = tokens(t@);
    proof {
        lemma_value_end(v, i as int);
    }
    assert(v[i as int] == t@[i as int]@);
    let opens = match &t[i] {
        Token::Array => true,
        Token::Dict => true,
        _ => false,
    };
    if !opens {
        return i + 1;
    }
    let mut at: usize = i + 1;
    let mut depth: usize = 1;
    while at < t.len()
        invariant
            i < at <= t@.len(),
            1 <= depth <= at,
            v == tokens(t@),
            closed_at(v, i + 1, 1) == closed_at(v, at as int, depth as nat),
            value_end(v, i as int) == closed_at(v, i + 1, 1),
        decreases t.len() - at,
    {
        assert(v[at as int] == t@[at as int]@);
        match &t[at] {
            Token::Array => {
                depth = depth + 1;
            },
            Token::Dict => {
                depth = depth + 1;
            },
            Token::End => {
                if depth <= 1 {
                    return at + 1;
                }
                depth = depth - 1;
            },
            _ => {},
        }
        at = at + 1;
    }
    at
}

/// Where the value of `key` starts in the dictionary at `i`.
pub fn get_of(t: &Vec<Token>, i: usize, key: &str) -> (r: Option<usize>)
    ensures
        match r {
            Some(j) => get(tokens(t@), i as int, key@) == Some(j as int) && j < t@.len(),
            None => get(tokens(t@), i as int, key@) is None,
        },
{
    let ghost v = tokens(t@);
    if i >= t.len() {
        return None;
    }
    assert(v[i as int] == t@[i as int]@);
    match &t[i] {
        Token::Dict => {},
        _ => {
            return None;
        },
    }
    let mut at: usize = i + 1;
    while at < t.len() - 1
        invariant
            at <= t@.len(),
            i < t@.len(),
            v == tokens(t@),
            get(v, i as int, key@) == entry_from(v, at as int, key@),
        decreases t.len() - at,
    {
        assert(v[at as int] == t@[at as int]@);
        match &t[at] {
            Token::Text(k) => {
                if same(k.as_str(), key) {
                    return Some(at + 1);
                }
            },
            _ => {
                return None;
            },
        }
        at = value_end_of(t, at + 1);
    }
    None
}

/// Where the value of the first of two keys starts.
pub fn get_either_of(t: &Vec<Token>, i: usize, first: &str, second: &str) -> (r: Option<usize>)
    ensures
        match r {
            Some(j) => get_either(tokens(t@), i as int, first@, second@) == Some(j as int) && j
                < t@.len(),
            None => get_either(tokens(t@), i as int, first@, second@) is None,
        },
{
    match get_of(t, i, first) {
        Some(j) => Some(j),
        None => get_of(t, i, second),
    }
}

/// The text at `i`.
pub fn text_at_of(t: &Vec<Token>, i: usize) -> (r: Option<String>)
    ensures
        opt_text(r) == text_at(tokens(t@), i as int),
{
    if i >= t.len() {
        return None;
    }
    assert(tokens(t@)[i as int] == t@[i as int]@);
    match &t[i] {
        Token::Text(s) => Some(s.clone()),
        _ => None,
    }
}

/// The boolean at `i`.
pub fn bool_at_of(t: &Vec<Token>, i: usize) -> (r: Option<bool>)
    ensures
        r == bool_at(tokens(t@), i as int),
{
    if i >= t.len() {
        return None;
    }
    assert(tokens(t@)[i as int] == t@[i as int]@);
    match &t[i] {
        Token::Bool(b) => Some(*b),
        _ => None,
    }
}

/// Whether a dictionary starts at `i`.
pub fn is_dict_of(t: &Vec<Token>, i: usize) -> (r: bool)
    ensures
        r == dict_at(tokens(t@), i as int),
{
    if i >= t.len() {
        return false;
    }
    assert(tokens(t@)[i as int] == t@[i as int]@);
    match &t[i] {
        Token::Dict => true,
        _ => false,
    }
}

/// The text under `key` in the dictionary at `i`.
pub fn get_text_of(t: &Vec<Token>, i: usize, key: &str) -> (r: Option<String>)
    ensures
        opt_text(r) == get_text(tokens(t@), i as int, key@),
{
    match get_of(t, i, key) {
        Some(j) => text_at_of(t, j),
        None => None,
    }
}

/// The boolean under `key` in the dictionary at `i`.
pub fn get_bool_of(t: &Vec<Token>, i: usize, key: &str) -> (r: Option<bool>)
    ensures
        r == get_bool(tokens(t@), i as int, key@),
{
    match get_of(t, i, key) {
        Some(j) => bool_at_of(t, j),
        None => None,
    }
}

/// The version a property list declares.
pub fn declared_version_of(t: &Vec<Token>) -> (r: Option<String>)
    ensures
        opt_text(r) == declared_version(tokens(t@)),
{
    match get_either_of(t, 0, "CFBundleShortVersionString", "CFBundleVersion") {
        Some(j) => text_at_of(t, j),
        None => None,
    }
}

/// The views of positions.
pub open spec fn positions(v: Seq<usize>) -> Seq<int> {
    v.map_values(|i: usize| i as int)
}

/// The starts of the items of the array at `i`.
pub fn items_of(t: &Vec<Token>, i: usize) -> (r: Vec<usize>)
    ensures
        positions(r@) == items(tokens(t@), i as int),
        forall|k: int| 0 <= k < r@.len() ==> #[trigger] r@[k] < t@.len(),
{
    let ghost v = tokens(t@);
    let mut out: Vec<usize> = Vec::new();
    assert(positions(out@) =~= Seq::empty());
    if i >= t.len() {
        return out;
    }
    assert(v[i as int] == t@[i as int]@);
    match &t[i] {
        Token::Array => {},
        _ => {
            return out;
        },
    }
    let mut at: usize = i + 1;
    assert(positions(out@) + items_from(v, at as int) =~= items(v, i as int));
    while at < t.len()
        invariant
            at <= t@.len(),
            v == tokens(t@),
            positions(out@) + items_from(v, at as int) == items(v, i as int),
            forall|k: int| 0 <= k < out@.len() ==> #[trigger] out@[k] < t@.len(),
        decreases t.len() - at,
    {
        assert(v[at as int] == t@[at as int]@);
        match &t[at] {
            Token::End => {
                assert(positions(out@) + Seq::<int>::empty() =~= positions(out@));
                return out;
            },
            _ => {},
        }
        let next = value_end_of(t, at);
        let ghost before = positions(out@);
        out.push(at);
        assert(positions(out@) =~= before.push(at as int));
        assert(before + (seq![at as int] + items_from(v, next as int)) =~= positions(out@)
            + items_from(v, next as int));
        at = next;
    }
    assert(positions(out@) + Seq::<int>::empty() =~= positions(out@));
    out
}

/// The views of keys and positions.
pub open spec fn keyed(v: Seq<(String, usize)>) -> Seq<(Seq<char>, int)> {
    v.map_values(|e: (String, usize)| (e.0@, e.1 as int))
}

/// The entries of the dictionary at `i`.
pub fn entries_of(t: &Vec<Token>, i: usize) -> (r: Vec<(String, usize)>)
    ensures
        keyed(r@) == entries(tokens(t@), i as int),
        forall|k: int| 0 <= k < r@.len() ==> (#[trigger] r@[k]).1 < t@.len(),
{
    let ghost v = tokens(t@);
    let mut out: Vec<(String, usize)> = Vec::new();
    assert(keyed(out@) =~= Seq::empty());
    if i >= t.len() {
        return out;
    }
    assert(v[i as int] == t@[i as int]@);
    match &t[i] {
        Token::Dict => {},
        _ => {
            return out;
        },
    }
    let mut at: usize = i + 1;
    assert(keyed(out@) + entries_from(v, at as int) =~= entries(v, i as int));
    while at < t.len() - 1
        invariant
            at <= t@.len(),
            i < t@.len(),
            v == tokens(t@),
            keyed(out@) + entries_from(v, at as int) == entries(v, i as int),
            forall|k: int| 0 <= k < out@.len() ==> (#[trigger] out@[k]).1 < t@.len(),
        decreases t.len() - at,
    {
        assert(v[at as int] == t@[at as int]@);
        let key = match &t[at] {
            Token::Text(k) => k.clone(),
            _ => {
                assert(keyed(out@) + Seq::<(Seq<char>, int)>::empty() =~= keyed(out@));
                return out;
            },
        };
        let next = value_end_of(t, at + 1);
        let ghost before = keyed(out@);
        out.push((key, at + 1));
        assert(keyed(out@) =~= before.push((key@, at + 1)));
        assert(before + (seq![(key@, at + 1)] + entries_from(v, next as int)) =~= keyed(out@)
            + entries_from(v, next as int));
        at = next;
    }
    assert(keyed(out@) + Seq::<(Seq<char>, int)>::empty() =~= keyed(out@));
    out
}

/// How many more collections open than close between two positions.
pub open spec fn level(t: Seq<TokenView>, from: int, to: int) -> int
    decreases to - from,
{
    if from >= to {
        0
    } else {
        level(t, from, to - 1) + match t[to - 1] {
            TokenView::Array | TokenView::Dict => 1int,
            TokenView::End => -1,
            _ => 0,
        }
    }
}

proof fn lemma_level_from(t: Seq<TokenView>, from: int, to: int)
    requires
        from < to,
    ensures
        level(t, from, to) == level(t, from + 1, to) + match t[from] {
            TokenView::Array | TokenView::Dict => 1int,
            TokenView::End => -1,
            _ => 0,
        },
    decreases to - from,
{
    if from + 1 < to {
        lemma_level_from(t, from, to - 1);
    } else {
        assert(level(t, from, from) == 0);
        assert(level(t, from + 1, to) == 0);
    }
}

/// Collections end where as many have closed as were open, and not before; a list that is
/// cut short ends them all.
pub proof fn lemma_closed_where_level(t: Seq<TokenView>, i: int, depth: nat)
    requires
        0 <= i <= t.len(),
        depth > 0,
    ensures
        ({
            let e = closed_at(t, i, depth);
            &&& i <= e <= t.len()
            &&& forall|j: int| i <= j < e ==> #[trigger] level(t, i, j) > -depth
            &&& level(t, i, e) == -depth || (e == t.len() && level(t, i, e) > -depth)
        }),
    decreases t.len() - i,
{
    if i < t.len() {
        let next: nat = match t[i] {
            TokenView::Array | TokenView::Dict => depth + 1,
            TokenView::End => (depth - 1) as nat,
            _ => depth,
        };
        let e = closed_at(t, i, depth);
        if next == 0 {
            assert(e == i + 1);
            lemma_level_from(t, i, i + 1);
            assert(level(t, i + 1, i + 1) == 0);
            assert(level(t, i, i) == 0);
        } else {
            lemma_closed_where_level(t, i + 1, next);
            assert forall|j: int| i <= j < e implies #[trigger] level(t, i, j) > -depth by {
                if j > i {
                    lemma_level_from(t, i, j);
                } else {
                    assert(level(t, i, i) == 0);
                }
            }
            lemma_level_from(t, i, e);
        }
    } else {
        assert(level(t, i, i) == 0);
    }
}

/// The value under a key is the first entry's that has the key, and each entry is under its
/// own.
pub proof fn lemma_get_is_first_entry(t: Seq<TokenView>, i: int, key: Seq<char>)
    ensures
        match get(t, i, key) {
            Some(j) => exists|k: int|
                0 <= k < entries(t, i).len() && #[trigger] entries(t, i)[k] == (key, j)
                    && forall|m: int| 0 <= m < k ==> (#[trigger] entries(t, i)[m]).0 != key,
            None => forall|k: int|
                0 <= k < entries(t, i).len() ==> (#[trigger] entries(t, i)[k]).0 != key,
        },
{
    if dict_at(t, i) {
        lemma_entry_is_first(t, i + 1, key);
        assert(entries(t, i) == entries_from(t, i + 1));
        if let Some(j) = get(t, i, key) {
            let k = choose|k: int|
                0 <= k < entries_from(t, i + 1).len() && #[trigger] entries_from(t, i + 1)[k] == (
                    key,
                    j,
                ) && forall|m: int| 0 <= m < k ==> (#[trigger] entries_from(t, i + 1)[m]).0 != key;
            assert(entries(t, i)[k] == (key, j));
        }
    }
}

proof fn lemma_entry_is_first(t: Seq<TokenView>, i: int, key: Seq<char>)
    requires
        0 <= i <= t.len(),
    ensures
        match entry_from(t, i, key) {
            Some(j) => exists|k: int|
                0 <= k < entries_from(t, i).len() && #[trigger] entries_from(t, i)[k] == (key, j)
                    && forall|m: int| 0 <= m < k ==> (#[trigger] entries_from(t, i)[m]).0 != key,
            None => forall|k: int|
                0 <= k < entries_from(t, i).len() ==> (#[trigger] entries_from(t, i)[k]).0 != key,
        },
    decreases t.len() - i,
{
    if i + 1 < t.len() {
        if let TokenView::Text(k) = t[i] {
            lemma_value_end(t, i + 1);
            let next = value_end(t, i + 1);
            let rest = entries_from(t, next);
            let all = entries_from(t, i);
            assert(all == seq![(k, i + 1)] + rest);
            assert(all[0] == (k, i + 1));
            if k != key {
                lemma_entry_is_first(t, next, key);
                match entry_from(t, next, key) {
                    Some(j) => {
                        let n = choose|n: int|
                            0 <= n < rest.len() && #[trigger] rest[n] == (key, j) && forall|m: int|
                                0 <= m < n ==> (#[trigger] rest[m]).0 != key;
                        assert(all[n + 1] == (key, j));
                        assert forall|m: int| 0 <= m < n + 1 implies (#[trigger] all[m]).0 != key by {
                            if m > 0 {
                                assert(all[m] == rest[m - 1]);
                            }
                        }
                    },
                    None => {
                        assert forall|m: int| 0 <= m < all.len() implies (#[trigger] all[m]).0
                            != key by {
                            if m > 0 {
                                assert(all[m] == rest[m - 1]);
                            }
                        }
                    },
                }
            }
        }
    }
}

/// A dictionary of plain values has an entry for each pair of a key and a value, in order.
pub proof fn lemma_flat_entries(t: Seq<TokenView>, i: int, n: nat)
    requires
        0 <= i,
        i + 2 * n < t.len(),
        t[i + 2 * n] is End,
        forall|k: int|
            #![trigger t[i + 2 * k]]
            0 <= k < n ==> t[i + 2 * k] is Text && !(t[i + 2 * k + 1] is Array) && !(t[i + 2 * k + 1]
                is Dict),
    ensures
        entries_from(t, i).len() == n,
        forall|k: int|
            #![trigger entries_from(t, i)[k]]
            0 <= k < n ==> entries_from(t, i)[k] == (t[i + 2 * k]->Text_0, i + 2 * k + 1),
    decreases n,
{
    if n > 0 {
        assert(t[i + 2 * 0] is Text);
        assert(value_end(t, i + 1) == i + 2);
        assert forall|k: int| #![trigger t[i + 2 + 2 * k]] 0 <= k < n - 1 implies t[i + 2 + 2 * k]
            is Text && !(t[i + 2 + 2 * k + 1] is Array) && !(t[i + 2 + 2 * k + 1] is Dict) by {
            assert(i + 2 + 2 * k == i + 2 * (k + 1));
            assert(t[i + 2 * (k + 1)] is Text);
        }
        lemma_flat_entries(t, i + 2, (n - 1) as nat);
        let rest = entries_from(t, i + 2);
        let all = entries_from(t, i);
        assert(all == seq![(t[i]->Text_0, i + 1)] + rest);
        assert forall|k: int| #![trigger all[k]] 0 <= k < n implies all[k] == (
            t[i + 2 * k]->Text_0,
            i + 2 * k + 1,
        ) by {
            if k > 0 {
                assert(all[k] == rest[k - 1]);
                assert(i + 2 + 2 * (k - 1) == i + 2 * k);
            }
        }
    }
}

/// The short version is preferred over the build's, and only text counts.
pub proof fn lemma_declared_version(t: Seq<TokenView>)
    ensures
        get(t, 0, "CFBundleShortVersionString"@) is Some ==> declared_version(t) == get_text(
            t,
            0,
            "CFBundleShortVersionString"@,
        ),
        get(t, 0, "CFBundleShortVersionString"@) is None ==> declared_version(t) == get_text(
            t,
            0,
            "CFBundleVersion"@,
        ),
        forall|j: int|
            0 <= j < t.len() ==> ((#[trigger] t[j]) matches TokenView::Text(s) ==> text_at(t, j)
                == Some(s) && bool_at(t, j) is None),
        forall|j: int|
            0 <= j < t.len() ==> ((#[trigger] t[j]) matches TokenView::Bool(b) ==> bool_at(t, j)
                == Some(b) && text_at(t, j) is None),
{
}

/// A moment splits into whole seconds and what is left of a second.
pub proof fn lemma_split_nanos(n: u128)
    ensures
        split_nanos(n) matches Some((secs, nanos)) ==> nanos < 1_000_000_000 && secs * 1_000_000_000
            + nanos == n,
        split_nanos(n) is None <==> n / 1_000_000_000 > u64::MAX,
{
}

} // verus!

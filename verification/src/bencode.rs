//! The bencode codec.

use vstd::prelude::*;
use crate::errors::{BencodeReason, TorrentError};
use crate::bencode::grammar::{
    after_entries, after_items, all_digits, decimal_value, digits_end, is_digit,
    field, lemma_decimal_prefix, lemma_digits_end, lookup,
    lemma_parse_value_bounds, parse_bytes, parse_entries, parse_int, parse_items, parse_value,
    BEntry, BValue, Failure, Parse,
};
use vstd::slice::{slice_subrange, slice_to_vec};
use crate::bytes::bytes_eq;

pub mod encode;
pub mod grammar;
pub mod json;
pub mod laws;
pub mod readback;

verus! {

/// One `key: value` pair of a dictionary.
#[derive(Debug)]
pub struct DictEntry {
    pub key: Vec<u8>,
    pub value: BencodeValue,
}

/// A decoded bencode value. Byte strings stay raw bytes; a dictionary keeps
/// its entries in the order in which they were read or pushed.
#[derive(Debug)]
pub enum BencodeValue {
    Bytes(Vec<u8>),
    Int(i64),
    List(Vec<BencodeValue>),
    Dict(Vec<DictEntry>),
}

impl View for DictEntry {
    type V = BEntry;

    open spec fn view(&self) -> BEntry
        decreases self,
    {
        BEntry { key: self.key@, value: self.value@ }
    }
}

impl View for BencodeValue {
    type V = BValue;

    open spec fn view(&self) -> BValue
        decreases self,
    {
        match self {
            BencodeValue::Bytes(b) => BValue::Bytes(b@),
            BencodeValue::Int(i) => BValue::Int(*i as int),
            BencodeValue::List(items) => BValue::List(
                Seq::new(
                    items.len() as nat,
                    |i: int|
                        if 0 <= i < items.len() {
                            items[i]@
                        } else {
                            BValue::Int(0)
                        },
                ),
            ),
            BencodeValue::Dict(entries) => BValue::Dict(
                Seq::new(
                    entries.len() as nat,
                    |i: int|
                        if 0 <= i < entries.len() {
                            entries[i]@
                        } else {
                            BEntry { key: Seq::empty(), value: BValue::Int(0) }
                        },
                ),
            ),
        }
    }
}

/// The views of a list's items, in order.
pub open spec fn items_view(items: Seq<BencodeValue>) -> Seq<BValue> {
    Seq::new(items.len(), |i: int| items[i]@)
}

/// The views of a dictionary's entries, in order.
pub open spec fn entries_view(entries: Seq<DictEntry>) -> Seq<BEntry> {
    Seq::new(entries.len(), |i: int| entries[i]@)
}

/// The error that reports a parse failure.
pub open spec fn as_error(failure: Failure) -> TorrentError {
    TorrentError::MalformedBencode { offset: failure.offset as usize, reason: failure.reason }
}

/// `res` is what the grammar says of the input: the value and the offset just
/// past it, or the failure's offset and reason.
pub open spec fn agrees(
    res: Result<(BencodeValue, usize), TorrentError>,
    parse: Parse<BValue>,
) -> bool {
    match parse {
        Parse::Done { value, end } => res matches Ok(pair) && pair.0@ == value && pair.1 == end,
        Parse::Failed { failure } => res == Err::<(BencodeValue, usize), TorrentError>(
            as_error(failure),
        ),
    }
}

fn malformed(offset: usize, reason: BencodeReason) -> (e: TorrentError)
    ensures
        e == (TorrentError::MalformedBencode { offset, reason }),
{
    TorrentError::MalformedBencode { offset, reason }
}

fn scan_digits(s: &[u8], pos: usize) -> (end: usize)
    requires
        pos <= s.len(),
    ensures
        end == digits_end(s@, pos as int),
        pos <= end <= s.len(),
        all_digits(s@, pos as int, end as int),
{
    let mut i = pos;
    while i < s.len() && 0x30 <= s[i] && s[i] <= 0x39
        invariant
            pos <= i <= s.len(),
            digits_end(s@, pos as int) == digits_end(s@, i as int),
            all_digits(s@, pos as int, i as int),
        decreases s.len() - i,
    {
        i += 1;
    }
    i
}

/// The number written by the digits of `s` from `from` up to `to`, unless it
/// is above `limit`.
fn read_decimal(s: &[u8], from: usize, to: usize, limit: u64) -> (res: Option<u64>)
    requires
        from <= to <= s.len(),
        all_digits(s@, from as int, to as int),
    ensures
        match res {
            Some(v) => v == decimal_value(s@.subrange(from as int, to as int)) && v <= limit,
            None => decimal_value(s@.subrange(from as int, to as int)) > limit,
        },
{
    let mut acc: u64 = 0;
    let mut i = from;
    while i < to
        invariant
            from <= i <= to <= s.len(),
            all_digits(s@, from as int, to as int),
            acc == decimal_value(s@.subrange(from as int, i as int)),
            acc <= limit,
        decreases to - i,
    {
        assert(is_digit(s@[i as int]));
        let d: u64 = (s[i] - 0x30) as u64;
        let next: u128 = acc as u128 * 10 + d as u128;
        proof {
            let longer = s@.subrange(from as int, i + 1);
            assert(longer.drop_last() =~= s@.subrange(from as int, i as int));
            assert(decimal_value(longer) == next);
        }
        if next > limit as u128 {
            proof {
                let whole = s@.subrange(from as int, to as int);
                assert(whole.take(i + 1 - from) =~= s@.subrange(from as int, i + 1));
                assert forall|j: int| 0 <= j < whole.len() implies is_digit(
                    #[trigger] whole[j],
                ) by {
                    assert(is_digit(s@[from + j]));
                }
                lemma_decimal_prefix(whole, i + 1 - from);
            }
            return None;
        }
        acc = next as u64;
        i += 1;
    }
    Some(acc)
}

fn decode_bytes_at(s: &[u8], pos: usize) -> (res: Result<(Vec<u8>, usize), TorrentError>)
    ensures
        match parse_bytes(s@, pos as int) {
            Parse::Done { value, end } => res matches Ok(pair) && pair.0@ == value && pair.1 == end,
            Parse::Failed { failure } => res == Err::<(Vec<u8>, usize), TorrentError>(
                as_error(failure),
            ),
        },
{
    if pos >= s.len() {
        return Err(malformed(s.len(), BencodeReason::UnexpectedEnd));
    }
    if !(0x30 <= s[pos] && s[pos] <= 0x39) {
        return Err(malformed(pos, BencodeReason::UnexpectedByte));
    }
    let colon = scan_digits(s, pos);
    proof {
        lemma_digits_end(s@, pos as int);
    }
    if colon - pos > 1 && s[pos] == 0x30 {
        return Err(malformed(pos, BencodeReason::LeadingZero));
    }
    if colon >= s.len() {
        return Err(malformed(s.len(), BencodeReason::UnexpectedEnd));
    }
    if s[colon] != 0x3a {
        return Err(malformed(colon, BencodeReason::MissingColon));
    }
    let start = colon + 1;
    let room = s.len() - start;
    match read_decimal(s, pos, colon, room as u64) {
        None => Err(malformed(s.len(), BencodeReason::UnexpectedEnd)),
        Some(length) => {
            let end = start + length as usize;
            let bytes = slice_to_vec(slice_subrange(s, start, end));
            Ok((bytes, end))
        },
    }
}

fn decode_int_at(s: &[u8], pos: usize) -> (res: Result<(i64, usize), TorrentError>)
    ensures
        match parse_int(s@, pos as int) {
            Parse::Done { value, end } => res matches Ok(pair) && pair.0 == value && pair.1 == end,
            Parse::Failed { failure } => res == Err::<(i64, usize), TorrentError>(
                as_error(failure),
            ),
        },
{
    if pos >= s.len() {
        return Err(malformed(s.len(), BencodeReason::UnexpectedEnd));
    }
    if s[pos] != 0x69 {
        return Err(malformed(pos, BencodeReason::UnexpectedByte));
    }
    let negative = pos + 1 < s.len() && s[pos + 1] == 0x2d;
    let first = if negative { pos + 2 } else { pos + 1 };
    if first >= s.len() {
        return Err(malformed(s.len(), BencodeReason::UnexpectedEnd));
    }
    let close = scan_digits(s, first);
    proof {
        lemma_digits_end(s@, first as int);
    }
    if close == first {
        return Err(malformed(first, BencodeReason::InvalidInteger));
    }
    if close - first > 1 && s[first] == 0x30 {
        return Err(malformed(first, BencodeReason::LeadingZero));
    }
    let limit: u64 = if negative { 0x8000_0000_0000_0000 } else { 0x7fff_ffff_ffff_ffff };
    let magnitude = read_decimal(s, first, close, limit);
    if negative && magnitude == Some(0) {
        return Err(malformed(first, BencodeReason::LeadingZero));
    }
    if close >= s.len() {
        return Err(malformed(s.len(), BencodeReason::UnexpectedEnd));
    }
    if s[close] != 0x65 {
        return Err(malformed(close, BencodeReason::InvalidInteger));
    }
    match magnitude {
        None => Err(malformed(pos, BencodeReason::IntegerOverflow)),
        Some(m) => {
            let value: i64 = if !negative {
                m as i64
            } else if m == 0x8000_0000_0000_0000 {
                i64::MIN
            } else {
                -(m as i64)
            };
            Ok((value, close + 1))
        },
    }
}


fn decode_value_at(s: &[u8], pos: usize) -> (res: Result<(BencodeValue, usize), TorrentError>)
    ensures
        agrees(res, parse_value(s@, pos as int)),
        res matches Ok(pair) ==> pos < pair.1 <= s.len(),
    decreases s.len() - pos, 0int,
{
    proof {
        lemma_parse_value_bounds(s@, pos as int);
    }
    if pos >= s.len() {
        return Err(malformed(s.len(), BencodeReason::UnexpectedEnd));
    }
    let b = s[pos];
    if 0x30 <= b && b <= 0x39 {
        match decode_bytes_at(s, pos) {
            Ok((bytes, end)) => Ok((BencodeValue::Bytes(bytes), end)),
            Err(e) => Err(e),
        }
    } else if b == 0x69 {
        match decode_int_at(s, pos) {
            Ok((value, end)) => Ok((BencodeValue::Int(value), end)),
            Err(e) => Err(e),
        }
    } else if b == 0x6c {
        match decode_items_at(s, pos + 1) {
            Ok((items, end)) => {
                let value = BencodeValue::List(items);
                assert(value@ == BValue::List(items_view(items@))) by {
                    assert(value@->List_0 =~= items_view(items@));
                }
                Ok((value, end))
            },
            Err(e) => Err(e),
        }
    } else if b == 0x64 {
        match decode_entries_at(s, pos + 1) {
            Ok((entries, end)) => {
                let value = BencodeValue::Dict(entries);
                assert(value@ == BValue::Dict(entries_view(entries@))) by {
                    assert(value@->Dict_0 =~= entries_view(entries@));
                }
                Ok((value, end))
            },
            Err(e) => Err(e),
        }
    } else {
        Err(malformed(pos, BencodeReason::UnexpectedByte))
    }
}

fn decode_items_at(s: &[u8], pos: usize) -> (res: Result<(Vec<BencodeValue>, usize), TorrentError>)
    ensures
        match parse_items(s@, pos as int) {
            Parse::Done { value, end } => res matches Ok(pair) && items_view(pair.0@) == value
                && pair.1 == end,
            Parse::Failed { failure } => res == Err::<(Vec<BencodeValue>, usize), TorrentError>(
                as_error(failure),
            ),
        },
    decreases s.len() - pos, 1int,
{
    let mut items: Vec<BencodeValue> = Vec::new();
    let mut cur = pos;
    assert(after_items(items_view(items@), parse_items(s@, cur as int)) == parse_items(
        s@,
        pos as int,
    )) by {
        if let Parse::Done { value, end } = parse_items(s@, pos as int) {
            assert(items_view(items@) + value =~= value);
        }
    }
    loop
        invariant
            pos <= cur,
            after_items(items_view(items@), parse_items(s@, cur as int)) == parse_items(
                s@,
                pos as int,
            ),
        decreases s.len() - cur,
    {
        if cur >= s.len() {
            return Err(malformed(s.len(), BencodeReason::UnexpectedEnd));
        }
        if s[cur] == 0x65 {
            assert(items_view(items@) + Seq::<BValue>::empty() =~= items_view(items@));
            return Ok((items, cur + 1));
        }
        match decode_value_at(s, cur) {
            Err(e) => {
                return Err(e);
            },
            Ok((value, next)) => {
                let ghost before = items_view(items@);
                let ghost head = value@;
                items.push(value);
                proof {
                    assert(items_view(items@) =~= before + seq![head]);
                    if let Parse::Done { value: tail, end } = parse_items(s@, next as int) {
                        assert((before + seq![head]) + tail =~= before + (seq![head] + tail));
                    }
                }
                cur = next;
            },
        }
    }
}

fn decode_entries_at(s: &[u8], pos: usize) -> (res: Result<(Vec<DictEntry>, usize), TorrentError>)
    ensures
        match parse_entries(s@, pos as int) {
            Parse::Done { value, end } => res matches Ok(pair) && entries_view(pair.0@) == value
                && pair.1 == end,
            Parse::Failed { failure } => res == Err::<(Vec<DictEntry>, usize), TorrentError>(
                as_error(failure),
            ),
        },
    decreases s.len() - pos, 1int,
{
    let mut entries: Vec<DictEntry> = Vec::new();
    let mut cur = pos;
    assert(after_entries(entries_view(entries@), parse_entries(s@, cur as int)) == parse_entries(
        s@,
        pos as int,
    )) by {
        if let Parse::Done { value, end } = parse_entries(s@, pos as int) {
            assert(entries_view(entries@) + value =~= value);
        }
    }
    loop
        invariant
            pos <= cur,
            after_entries(entries_view(entries@), parse_entries(s@, cur as int)) == parse_entries(
                s@,
                pos as int,
            ),
        decreases s.len() - cur,
    {
        if cur >= s.len() {
            return Err(malformed(s.len(), BencodeReason::UnexpectedEnd));
        }
        if s[cur] == 0x65 {
            assert(entries_view(entries@) + Seq::<BEntry>::empty() =~= entries_view(
                entries@,
            ));
            return Ok((entries, cur + 1));
        }
        proof {
            crate::bencode::grammar::lemma_parse_bytes_bounds(s@, cur as int);
        }
        let (key, after_key) = match decode_bytes_at(s, cur) {
            Err(e) => {
                return Err(e);
            },
            Ok(pair) => pair,
        };
        match decode_value_at(s, after_key) {
            Err(e) => {
                return Err(e);
            },
            Ok((value, next)) => {
                let ghost before = entries_view(entries@);
                let ghost head = BEntry { key: key@, value: value@ };
                entries.push(DictEntry { key, value });
                proof {
                    assert(entries_view(entries@) =~= before + seq![head]);
                    if let Parse::Done { value: tail, end } = parse_entries(s@, next as int) {
                        assert((before + seq![head]) + tail =~= before + (seq![head] + tail));
                    }
                }
                cur = next;
            },
        }
    }
}

/// Decodes the value at the start of `encoded`; bytes after it are left
/// unread. Returns the value and the number of bytes it took.
pub fn decode_bencoded_value(encoded: &[u8]) -> (res: Result<(BencodeValue, usize), TorrentError>)
    ensures
        agrees(res, parse_value(encoded@, 0)),
        res matches Ok(pair) ==> 0 < pair.1 <= encoded.len(),
{
    decode_value_at(encoded, 0)
}

/// What the grammar says of `s` when only a value that starts with one of the
/// bytes `wanted` allows is accepted.
pub open spec fn parse_kind(s: Seq<u8>, wanted: spec_fn(u8) -> bool) -> Parse<BValue> {
    if s.len() == 0 {
        Parse::Failed { failure: Failure { offset: 0, reason: BencodeReason::UnexpectedEnd } }
    } else if !wanted(s[0]) {
        Parse::Failed { failure: Failure { offset: 0, reason: BencodeReason::UnexpectedByte } }
    } else {
        parse_value(s, 0)
    }
}

/// Decodes a byte string `<length>:<bytes>` at the start of `encoded`.
pub fn decode_bencoded_string(encoded: &[u8]) -> (res: Result<(BencodeValue, usize), TorrentError>)
    ensures
        agrees(res, parse_kind(encoded@, |b: u8| is_digit(b))),
{
    if encoded.len() == 0 {
        return Err(malformed(0, BencodeReason::UnexpectedEnd));
    }
    if !(0x30 <= encoded[0] && encoded[0] <= 0x39) {
        return Err(malformed(0, BencodeReason::UnexpectedByte));
    }
    decode_value_at(encoded, 0)
}

/// Decodes an integer `i<digits>e` at the start of `encoded`.
pub fn decode_bencoded_number(encoded: &[u8]) -> (res: Result<(BencodeValue, usize), TorrentError>)
    ensures
        agrees(res, parse_kind(encoded@, |b: u8| b == 0x69)),
{
    if encoded.len() == 0 {
        return Err(malformed(0, BencodeReason::UnexpectedEnd));
    }
    if encoded[0] != 0x69 {
        return Err(malformed(0, BencodeReason::UnexpectedByte));
    }
    decode_value_at(encoded, 0)
}

/// Decodes a list `l<items>e` at the start of `encoded`.
pub fn decode_bencoded_list(encoded: &[u8]) -> (res: Result<(BencodeValue, usize), TorrentError>)
    ensures
        agrees(res, parse_kind(encoded@, |b: u8| b == 0x6c)),
{
    if encoded.len() == 0 {
        return Err(malformed(0, BencodeReason::UnexpectedEnd));
    }
    if encoded[0] != 0x6c {
        return Err(malformed(0, BencodeReason::UnexpectedByte));
    }
    decode_value_at(encoded, 0)
}

/// Decodes a dictionary `d<entries>e` at the start of `encoded`.
pub fn decode_bencoded_dict(encoded: &[u8]) -> (res: Result<(BencodeValue, usize), TorrentError>)
    ensures
        agrees(res, parse_kind(encoded@, |b: u8| b == 0x64)),
{
    if encoded.len() == 0 {
        return Err(malformed(0, BencodeReason::UnexpectedEnd));
    }
    if encoded[0] != 0x64 {
        return Err(malformed(0, BencodeReason::UnexpectedByte));
    }
    decode_value_at(encoded, 0)
}


impl BencodeValue {
    /// The value a dictionary holds under `key`: that of the first such
    /// entry.
    pub fn get(&self, key: &[u8]) -> (res: Option<&BencodeValue>)
        ensures
            match res {
                Some(v) => field(self@, key@) == Some(v@),
                None => field(self@, key@) is None,
            },
    {
        match self {
            BencodeValue::Dict(entries) => {
                let ghost view = entries_view(entries@);
                assert(self@ == BValue::Dict(view)) by {
                    assert(self@->Dict_0 =~= view);
                }
                let mut i: usize = 0;
                assert(view.skip(0) =~= view);
                while i < entries.len()
                    invariant
                        i <= entries.len(),
                        view == entries_view(entries@),
                        self@ == BValue::Dict(view),
                        lookup(view, key@) == lookup(view.skip(i as int), key@),
                    decreases entries.len() - i,
                {
                    assert(view.skip(i as int)[0] == view[i as int]);
                    if bytes_eq(entries[i].key.as_slice(), key) {
                        return Some(&entries[i].value);
                    }
                    assert(view.skip(i as int).drop_first() =~= view.skip(i + 1));
                    i += 1;
                }
                None
            },
            _ => None,
        }
    }

    /// The number, if this is an integer.
    pub fn as_int(&self) -> (res: Option<i64>)
        ensures
            match res {
                Some(i) => self@ == BValue::Int(i as int),
                None => !(self@ is Int),
            },
    {
        match self {
            BencodeValue::Int(i) => Some(*i),
            _ => None,
        }
    }

    /// The bytes, if this is a byte string.
    pub fn as_bytes(&self) -> (res: Option<&Vec<u8>>)
        ensures
            match res {
                Some(b) => self@ == BValue::Bytes(b@),
                None => !(self@ is Bytes),
            },
    {
        match self {
            BencodeValue::Bytes(b) => Some(b),
            _ => None,
        }
    }
}


impl BencodeValue {
    /// The dictionary that holds `entries` in this order.
    pub fn dict_of(entries: Vec<DictEntry>) -> (v: BencodeValue)
        ensures
            v@ == BValue::Dict(entries_view(entries@)),
    {
        let v = BencodeValue::Dict(entries);
        assert(v@->Dict_0 =~= entries_view(entries@));
        v
    }

    /// The list that holds `items` in this order.
    pub fn list_of(items: Vec<BencodeValue>) -> (v: BencodeValue)
        ensures
            v@ == BValue::List(items_view(items@)),
    {
        let v = BencodeValue::List(items);
        assert(v@->List_0 =~= items_view(items@));
        v
    }
}

impl DictEntry {
    /// The entry `key: value`.
    pub fn new(key: &[u8], value: BencodeValue) -> (entry: DictEntry)
        ensures
            entry@ == (BEntry { key: key@, value: value@ }),
    {
        DictEntry { key: slice_to_vec(key), value }
    }
}

} // verus!

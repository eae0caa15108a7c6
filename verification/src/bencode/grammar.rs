//! The bencode grammar as mathematics: what a byte sequence parses to, and
//! what a value is written as.

use vstd::prelude::*;
use crate::errors::BencodeReason;

verus! {

/// A bencoded value, as a mathematical tree.
pub enum BValue {
    Bytes(Seq<u8>),
    Int(int),
    List(Seq<BValue>),
    Dict(Seq<BEntry>),
}

/// One `key: value` pair of a dictionary.
pub struct BEntry {
    pub key: Seq<u8>,
    pub value: BValue,
}

/// Where and why parsing stopped.
pub struct Failure {
    pub offset: int,
    pub reason: BencodeReason,
}

/// The outcome of parsing one construct: what was read and the offset just
/// past it, or the failure.
pub enum Parse<T> {
    Done { value: T, end: int },
    Failed { failure: Failure },
}

/// Parsing stopped at `offset` for `reason`.
pub open spec fn fail<T>(offset: int, reason: BencodeReason) -> Parse<T> {
    Parse::Failed { failure: Failure { offset, reason } }
}

/// An ASCII decimal digit.
pub open spec fn is_digit(b: u8) -> bool {
    0x30 <= b <= 0x39
}

/// The offset of the first byte at or after `pos` that is not a decimal digit.
pub open spec fn digits_end(s: Seq<u8>, pos: int) -> int
    decreases s.len() - pos,
{
    if 0 <= pos < s.len() && is_digit(s[pos]) {
        digits_end(s, pos + 1)
    } else {
        pos
    }
}

/// The number that a sequence of decimal digits denotes.
pub open spec fn decimal_value(digits: Seq<u8>) -> nat
    decreases digits.len(),
{
    if digits.len() == 0 {
        0
    } else {
        (decimal_value(digits.drop_last()) * 10 + (digits.last() - 0x30)) as nat
    }
}

/// The shortest decimal writing of `n`.
pub open spec fn decimal_digits(n: nat) -> Seq<u8>
    decreases n,
{
    if n < 10 {
        seq![(n + 0x30) as u8]
    } else {
        decimal_digits(n / 10).push((n % 10 + 0x30) as u8)
    }
}

/// A digit sequence with a needless leading zero.
pub open spec fn has_leading_zero(digits: Seq<u8>) -> bool {
    digits.len() > 1 && digits[0] == 0x30
}

/// Parses a byte string `<length>:<bytes>` whose first digit stands at `pos`.
pub open spec fn parse_bytes(s: Seq<u8>, pos: int) -> Parse<Seq<u8>> {
    let colon = digits_end(s, pos);
    let digits = s.subrange(pos, colon);
    let length = decimal_value(digits);
    if !(0 <= pos < s.len() && is_digit(s[pos])) {
        if 0 <= pos < s.len() {
            fail(pos, BencodeReason::UnexpectedByte)
        } else {
            fail(s.len() as int, BencodeReason::UnexpectedEnd)
        }
    } else if has_leading_zero(digits) {
        fail(pos, BencodeReason::LeadingZero)
    } else if colon >= s.len() {
        fail(s.len() as int, BencodeReason::UnexpectedEnd)
    } else if s[colon] != 0x3a {
        fail(colon, BencodeReason::MissingColon)
    } else if colon + 1 + length > s.len() {
        fail(s.len() as int, BencodeReason::UnexpectedEnd)
    } else {
        Parse::Done { value: s.subrange(colon + 1, colon + 1 + length), end: colon + 1 + length }
    }
}

/// Parses an integer `i<digits>e` whose `i` stands at `pos`.
pub open spec fn parse_int(s: Seq<u8>, pos: int) -> Parse<int> {
    let negative = pos + 1 < s.len() && s[pos + 1] == 0x2d;
    let first = if negative { pos + 2 } else { pos + 1 };
    let close = digits_end(s, first);
    let digits = s.subrange(first, close);
    let magnitude = decimal_value(digits);
    let value = if negative { -(magnitude as int) } else { magnitude as int };
    if !(0 <= pos < s.len()) {
        fail(s.len() as int, BencodeReason::UnexpectedEnd)
    } else if s[pos] != 0x69 {
        fail(pos, BencodeReason::UnexpectedByte)
    } else if first >= s.len() {
        fail(s.len() as int, BencodeReason::UnexpectedEnd)
    } else if close == first {
        fail(first, BencodeReason::InvalidInteger)
    } else if has_leading_zero(digits) || (negative && magnitude == 0) {
        fail(first, BencodeReason::LeadingZero)
    } else if close >= s.len() {
        fail(s.len() as int, BencodeReason::UnexpectedEnd)
    } else if s[close] != 0x65 {
        fail(close, BencodeReason::InvalidInteger)
    } else if !(i64::MIN <= value <= i64::MAX) {
        fail(pos, BencodeReason::IntegerOverflow)
    } else {
        Parse::Done { value, end: close + 1 }
    }
}

/// Parses the value that starts at `pos`.
pub open spec fn parse_value(s: Seq<u8>, pos: int) -> Parse<BValue>
    decreases s.len() - pos, 0int,
{
    if !(0 <= pos < s.len()) {
        fail(s.len() as int, BencodeReason::UnexpectedEnd)
    } else if is_digit(s[pos]) {
        match parse_bytes(s, pos) {
            Parse::Done { value, end } => Parse::Done { value: BValue::Bytes(value), end },
            Parse::Failed { failure } => Parse::Failed { failure },
        }
    } else if s[pos] == 0x69 {
        match parse_int(s, pos) {
            Parse::Done { value, end } => Parse::Done { value: BValue::Int(value), end },
            Parse::Failed { failure } => Parse::Failed { failure },
        }
    } else if s[pos] == 0x6c {
        match parse_items(s, pos + 1) {
            Parse::Done { value, end } => Parse::Done { value: BValue::List(value), end },
            Parse::Failed { failure } => Parse::Failed { failure },
        }
    } else if s[pos] == 0x64 {
        match parse_entries(s, pos + 1) {
            Parse::Done { value, end } => Parse::Done { value: BValue::Dict(value), end },
            Parse::Failed { failure } => Parse::Failed { failure },
        }
    } else {
        fail(pos, BencodeReason::UnexpectedByte)
    }
}

/// Parses list items from `pos` up to and including the closing `e`.
pub open spec fn parse_items(s: Seq<u8>, pos: int) -> Parse<Seq<BValue>>
    decreases s.len() - pos, 1int,
{
    if !(0 <= pos < s.len()) {
        fail(s.len() as int, BencodeReason::UnexpectedEnd)
    } else if s[pos] == 0x65 {
        Parse::Done { value: Seq::empty(), end: pos + 1 }
    } else {
        match parse_value(s, pos) {
            Parse::Failed { failure } => Parse::Failed { failure },
            Parse::Done { value: head, end: next } => {
                if next <= pos || next > s.len() {
                    fail(pos, BencodeReason::UnexpectedByte)
                } else {
                    match parse_items(s, next) {
                        Parse::Failed { failure } => Parse::Failed { failure },
                        Parse::Done { value: tail, end } => Parse::Done {
                            value: seq![head] + tail,
                            end,
                        },
                    }
                }
            },
        }
    }
}

/// Parses dictionary entries from `pos` up to and including the closing `e`.
/// A key is a byte string; entries are kept in the order read.
pub open spec fn parse_entries(s: Seq<u8>, pos: int) -> Parse<Seq<BEntry>>
    decreases s.len() - pos, 1int,
{
    if !(0 <= pos < s.len()) {
        fail(s.len() as int, BencodeReason::UnexpectedEnd)
    } else if s[pos] == 0x65 {
        Parse::Done { value: Seq::empty(), end: pos + 1 }
    } else {
        match parse_bytes(s, pos) {
            Parse::Failed { failure } => Parse::Failed { failure },
            Parse::Done { value: key, end: after_key } => {
                if after_key <= pos || after_key > s.len() {
                    fail(pos, BencodeReason::UnexpectedByte)
                } else {
                    match parse_value(s, after_key) {
                        Parse::Failed { failure } => Parse::Failed { failure },
                        Parse::Done { value: head, end: next } => {
                            if next <= after_key || next > s.len() {
                                fail(pos, BencodeReason::UnexpectedByte)
                            } else {
                                match parse_entries(s, next) {
                                    Parse::Failed { failure } => Parse::Failed { failure },
                                    Parse::Done { value: tail, end } => Parse::Done {
                                        value: seq![BEntry { key, value: head }] + tail,
                                        end,
                                    },
                                }
                            }
                        },
                    }
                }
            },
        }
    }
}

/// An integer written in decimal, with `-` before a negative one.
pub open spec fn int_text(i: int) -> Seq<u8> {
    if i < 0 {
        seq![0x2du8] + decimal_digits((-i) as nat)
    } else {
        decimal_digits(i as nat)
    }
}

/// A byte string written as `<length>:<bytes>`.
pub open spec fn write_bytes(b: Seq<u8>) -> Seq<u8> {
    decimal_digits(b.len()) + seq![0x3au8] + b
}

/// A value written with its dictionary entries in the order they are held.
pub open spec fn write_value(v: BValue) -> Seq<u8>
    decreases v, 0int,
{
    match v {
        BValue::Bytes(b) => write_bytes(b),
        BValue::Int(i) => seq![0x69u8] + int_text(i) + seq![0x65u8],
        BValue::List(items) => seq![0x6cu8] + write_items(items) + seq![0x65u8],
        BValue::Dict(entries) => seq![0x64u8] + write_entries(entries) + seq![0x65u8],
    }
}

/// The items of a list written one after the other.
pub open spec fn write_items(items: Seq<BValue>) -> Seq<u8>
    decreases items, 1int,
{
    if items.len() == 0 {
        Seq::empty()
    } else {
        write_items(items.drop_last()) + write_value(items.last())
    }
}

/// The entries of a dictionary, each written as key then value, one after
/// the other in the order held.
pub open spec fn write_entries(entries: Seq<BEntry>) -> Seq<u8>
    decreases entries, 1int,
{
    if entries.len() == 0 {
        Seq::empty()
    } else {
        write_entries(entries.drop_last()) + write_bytes(entries.last().key) + write_value(
            entries.last().value,
        )
    }
}

/// `a` comes no later than `b` in the lexicographic order of byte strings.
pub open spec fn lex_le(a: Seq<u8>, b: Seq<u8>) -> bool
    decreases a.len(),
{
    if a.len() == 0 {
        true
    } else if b.len() == 0 {
        false
    } else if a[0] != b[0] {
        a[0] < b[0]
    } else {
        lex_le(a.drop_first(), b.drop_first())
    }
}

/// Where entry `k` goes into `order`, a sequence of entry indices already in
/// key order: behind every index whose key is no later than that of `k`.
pub open spec fn insertion_point(entries: Seq<BEntry>, order: Seq<int>, k: int) -> int
    decreases order.len(),
{
    if order.len() == 0 {
        0
    } else if lex_le(entries[order.last()].key, entries[k].key) {
        order.len() as int
    } else {
        insertion_point(entries, order.drop_last(), k)
    }
}

/// The indices of the first `n` entries, ordered by key; entries with equal
/// keys keep the order in which they are held.
pub open spec fn key_order(entries: Seq<BEntry>, n: nat) -> Seq<int>
    decreases n,
{
    if n == 0 {
        Seq::empty()
    } else {
        let before = key_order(entries, (n - 1) as nat);
        before.insert(insertion_point(entries, before, n - 1), n - 1)
    }
}

/// The canonical encoding of a value: every dictionary is written with its
/// keys in lexicographic order.
pub open spec fn encode_value(v: BValue) -> Seq<u8>
    decreases v, 0nat,
{
    match v {
        BValue::Bytes(b) => write_bytes(b),
        BValue::Int(i) => seq![0x69u8] + int_text(i) + seq![0x65u8],
        BValue::List(items) => seq![0x6cu8] + encode_items(items) + seq![0x65u8],
        BValue::Dict(entries) => seq![0x64u8] + encode_entries(
            entries,
            key_order(entries, entries.len()),
        ) + seq![0x65u8],
    }
}

/// The items of a list, each in its canonical encoding, one after the other.
pub open spec fn encode_items(items: Seq<BValue>) -> Seq<u8>
    decreases items, 0nat,
{
    if items.len() == 0 {
        Seq::empty()
    } else {
        encode_items(items.drop_last()) + encode_value(items.last())
    }
}

/// The entries that `order` names, each written as key then value, one after
/// the other.
pub open spec fn encode_entries(entries: Seq<BEntry>, order: Seq<int>) -> Seq<u8>
    decreases entries, order.len(),
{
    if order.len() == 0 {
        Seq::empty()
    } else if 0 <= order.last() < entries.len() {
        encode_entries(entries, order.drop_last()) + write_bytes(entries[order.last()].key)
            + encode_value(entries[order.last()].value)
    } else {
        encode_entries(entries, order.drop_last())
    }
}

/// Every dictionary inside `v` holds its entries in key order.
pub open spec fn keys_sorted(v: BValue) -> bool
    decreases v,
{
    match v {
        BValue::Bytes(_) => true,
        BValue::Int(_) => true,
        BValue::List(items) => forall|i: int|
            0 <= i < items.len() ==> keys_sorted(#[trigger] items[i]),
        BValue::Dict(entries) => {
            &&& forall|i: int, j: int|
                0 <= i < j < entries.len() ==> lex_le(
                    (#[trigger] entries[i]).key,
                    (#[trigger] entries[j]).key,
                )
            &&& forall|i: int| 0 <= i < entries.len() ==> keys_sorted((#[trigger] entries[i]).value)
        },
    }
}


/// Every byte of `s` from `from` up to `to` is a decimal digit.
pub open spec fn all_digits(s: Seq<u8>, from: int, to: int) -> bool {
    forall|j: int| from <= j < to ==> is_digit(#[trigger] s[j])
}

/// `digits_end` stops inside the input, past digits only, at a byte that is
/// no digit.
pub proof fn lemma_digits_end(s: Seq<u8>, pos: int)
    requires
        0 <= pos <= s.len(),
    ensures
        pos <= digits_end(s, pos) <= s.len(),
        all_digits(s, pos, digits_end(s, pos)),
        digits_end(s, pos) < s.len() ==> !is_digit(s[digits_end(s, pos)]),
        pos < s.len() && is_digit(s[pos]) ==> pos < digits_end(s, pos),
    decreases s.len() - pos,
{
    if pos < s.len() && is_digit(s[pos]) {
        lemma_digits_end(s, pos + 1);
    }
}

/// A prefix of a digit sequence denotes no more than the whole.
pub proof fn lemma_decimal_prefix(digits: Seq<u8>, k: int)
    requires
        0 <= k <= digits.len(),
        all_digits(digits, 0, digits.len() as int),
    ensures
        decimal_value(digits.take(k)) <= decimal_value(digits),
    decreases digits.len(),
{
    if k == digits.len() {
        assert(digits.take(k) =~= digits);
    } else {
        let shorter = digits.drop_last();
        assert(shorter.take(k) =~= digits.take(k));
        lemma_decimal_prefix(shorter, k);
        assert(is_digit(digits[digits.len() - 1]));
    }
}

/// A parsed value ends after it starts and inside the input; a failure lies
/// inside the input or at its end.
pub proof fn lemma_parse_value_bounds(s: Seq<u8>, pos: int)
    ensures
        parse_value(s, pos) matches Parse::Done { value, end } ==> 0 <= pos < end <= s.len(),
        parse_value(s, pos) matches Parse::Failed { failure } ==> 0 <= failure.offset <= s.len(),
    decreases s.len() - pos, 0int,
{
    if 0 <= pos < s.len() {
        if is_digit(s[pos]) {
            lemma_parse_bytes_bounds(s, pos);
        } else if s[pos] == 0x69 {
            lemma_parse_int_bounds(s, pos);
        } else if s[pos] == 0x6c {
            lemma_parse_items_bounds(s, pos + 1);
        } else if s[pos] == 0x64 {
            lemma_parse_entries_bounds(s, pos + 1);
        }
    }
}

/// The same for a byte string.
pub proof fn lemma_parse_bytes_bounds(s: Seq<u8>, pos: int)
    ensures
        parse_bytes(s, pos) matches Parse::Done { value, end } ==> 0 <= pos < end <= s.len(),
        parse_bytes(s, pos) matches Parse::Failed { failure } ==> 0 <= failure.offset <= s.len(),
{
    if 0 <= pos < s.len() {
        lemma_digits_end(s, pos);
    }
}

/// The same for an integer.
pub proof fn lemma_parse_int_bounds(s: Seq<u8>, pos: int)
    ensures
        parse_int(s, pos) matches Parse::Done { value, end } ==> 0 <= pos < end <= s.len(),
        parse_int(s, pos) matches Parse::Failed { failure } ==> 0 <= failure.offset <= s.len(),
{
    if 0 <= pos < s.len() {
        let negative = pos + 1 < s.len() && s[pos + 1] == 0x2d;
        let first = if negative { pos + 2 } else { pos + 1 };
        if first <= s.len() {
            lemma_digits_end(s, first);
        }
    }
}

/// The same for the items of a list.
pub proof fn lemma_parse_items_bounds(s: Seq<u8>, pos: int)
    ensures
        parse_items(s, pos) matches Parse::Done { value, end } ==> 0 <= pos < end <= s.len(),
        parse_items(s, pos) matches Parse::Failed { failure } ==> 0 <= failure.offset <= s.len(),
    decreases s.len() - pos, 1int,
{
    if 0 <= pos < s.len() && s[pos] != 0x65 {
        lemma_parse_value_bounds(s, pos);
        if let Parse::Done { value, end: next } = parse_value(s, pos) {
            lemma_parse_items_bounds(s, next);
        }
    }
}

/// The same for the entries of a dictionary.
pub proof fn lemma_parse_entries_bounds(s: Seq<u8>, pos: int)
    ensures
        parse_entries(s, pos) matches Parse::Done { value, end } ==> 0 <= pos < end <= s.len(),
        parse_entries(s, pos) matches Parse::Failed { failure } ==> 0 <= failure.offset <= s.len(),
    decreases s.len() - pos, 1int,
{
    if 0 <= pos < s.len() && s[pos] != 0x65 {
        lemma_parse_bytes_bounds(s, pos);
        if let Parse::Done { value, end: after_key } = parse_bytes(s, pos) {
            lemma_parse_value_bounds(s, after_key);
            if let Parse::Done { value, end: next } = parse_value(s, after_key) {
                lemma_parse_entries_bounds(s, next);
            }
        }
    }
}

/// Parsed items put before what the rest parses to.
pub open spec fn after_items(done: Seq<BValue>, rest: Parse<Seq<BValue>>) -> Parse<Seq<BValue>> {
    match rest {
        Parse::Done { value, end } => Parse::Done { value: done + value, end },
        Parse::Failed { failure } => Parse::Failed { failure },
    }
}

/// Parsed entries put before what the rest parses to.
pub open spec fn after_entries(
    done: Seq<BEntry>,
    rest: Parse<Seq<BEntry>>,
) -> Parse<Seq<BEntry>> {
    match rest {
        Parse::Done { value, end } => Parse::Done { value: done + value, end },
        Parse::Failed { failure } => Parse::Failed { failure },
    }
}


/// The value of the first entry under `key`, if there is one.
pub open spec fn lookup(entries: Seq<BEntry>, key: Seq<u8>) -> Option<BValue>
    decreases entries.len(),
{
    if entries.len() == 0 {
        None
    } else if entries[0].key == key {
        Some(entries[0].value)
    } else {
        lookup(entries.drop_first(), key)
    }
}

/// What a dictionary holds under `key`; nothing for a value of another kind.
pub open spec fn field(v: BValue, key: Seq<u8>) -> Option<BValue> {
    match v {
        BValue::Dict(entries) => lookup(entries, key),
        _ => None,
    }
}

} // verus!

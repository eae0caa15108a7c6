//! What holds between decoding and encoding.

use vstd::prelude::*;
use crate::bencode::grammar::{
    all_digits, decimal_digits, decimal_value, digits_end, encode_entries, encode_items,
    encode_value, has_leading_zero, insertion_point, int_text, is_digit, key_order, keys_sorted,
    lemma_decimal_prefix, lemma_digits_end, lemma_parse_bytes_bounds, lemma_parse_entries_bounds,
    lemma_parse_items_bounds, lemma_parse_value_bounds, lex_le, parse_bytes, parse_entries,
    parse_int, parse_items, parse_value, write_bytes, write_entries, write_items, write_value,
    BEntry, BValue,
};

verus! {

/// Digits without a needless leading zero are the shortest writing of the
/// number they denote.
pub proof fn lemma_digits_of_value(digits: Seq<u8>)
    requires
        digits.len() >= 1,
        all_digits(digits, 0, digits.len() as int),
        !has_leading_zero(digits),
    ensures
        decimal_digits(decimal_value(digits)) == digits,
    decreases digits.len(),
{
    let shorter = digits.drop_last();
    assert(is_digit(digits[digits.len() - 1]));
    if digits.len() == 1 {
        assert(decimal_value(shorter) == 0);
        assert(decimal_digits(decimal_value(digits)) =~= digits);
    } else {
        assert(is_digit(digits[0]));
        assert(shorter[0] == digits[0]);
        lemma_digits_of_value(shorter);
        assert(shorter.take(1).drop_last() =~= Seq::<u8>::empty());
        assert(decimal_value(shorter.take(1)) == shorter[0] - 0x30) by {
            assert(decimal_value(shorter.take(1).drop_last()) == 0);
        }
        lemma_decimal_prefix(shorter, 1);
        let n = decimal_value(digits);
        assert(n == decimal_value(shorter) * 10 + (digits.last() - 0x30));
        assert(n / 10 == decimal_value(shorter));
        assert(n % 10 == digits.last() - 0x30);
        assert(decimal_digits(n) =~= digits);
    }
}

/// A byte string that was parsed is written as the very bytes it was read
/// from.
pub proof fn lemma_bytes_roundtrip(s: Seq<u8>, pos: int)
    requires
        parse_bytes(s, pos) is Done,
    ensures
        write_bytes(parse_bytes(s, pos)->value) == s.subrange(pos, parse_bytes(s, pos)->end),
{
    lemma_digits_end(s, pos);
    let colon = digits_end(s, pos);
    let digits = s.subrange(pos, colon);
    lemma_digits_of_value(digits);
    let value = parse_bytes(s, pos)->value;
    assert(write_bytes(value) =~= s.subrange(pos, parse_bytes(s, pos)->end));
}

/// An integer that was parsed is written as the very bytes it was read from.
pub proof fn lemma_int_roundtrip(s: Seq<u8>, pos: int)
    requires
        parse_int(s, pos) is Done,
    ensures
        seq![0x69u8] + int_text(parse_int(s, pos)->value) + seq![0x65u8] == s.subrange(
            pos,
            parse_int(s, pos)->end,
        ),
{
    let negative = pos + 1 < s.len() && s[pos + 1] == 0x2d;
    let first = if negative { pos + 2 } else { pos + 1 };
    lemma_digits_end(s, first);
    let close = digits_end(s, first);
    let digits = s.subrange(first, close);
    lemma_digits_of_value(digits);
    let value = parse_int(s, pos)->value;
    assert(seq![0x69u8] + int_text(value) + seq![0x65u8] =~= s.subrange(pos, close + 1));
}

/// Writing a list item by item from the front.
pub proof fn lemma_write_items_front(head: BValue, tail: Seq<BValue>)
    ensures
        write_items(seq![head] + tail) == write_value(head) + write_items(tail),
    decreases tail.len(),
{
    let all = seq![head] + tail;
    if tail.len() == 0 {
        assert(all.drop_last() =~= Seq::<BValue>::empty());
        assert(write_items(Seq::<BValue>::empty()) =~= Seq::<u8>::empty());
        assert(all.last() == head);
        assert(write_items(all) =~= write_value(head) + write_items(tail));
    } else {
        assert(all.drop_last() =~= seq![head] + tail.drop_last());
        lemma_write_items_front(head, tail.drop_last());
        assert(write_items(all) =~= write_value(head) + write_items(tail));
    }
}

/// Writing a dictionary entry by entry from the front.
pub proof fn lemma_write_entries_front(head: BEntry, tail: Seq<BEntry>)
    ensures
        write_entries(seq![head] + tail) == write_bytes(head.key) + write_value(head.value)
            + write_entries(tail),
    decreases tail.len(),
{
    let all = seq![head] + tail;
    if tail.len() == 0 {
        assert(all.drop_last() =~= Seq::<BEntry>::empty());
        assert(write_entries(Seq::<BEntry>::empty()) =~= Seq::<u8>::empty());
        assert(all.last() == head);
        assert(write_entries(all) =~= write_bytes(head.key) + write_value(head.value)
            + write_entries(tail));
    } else {
        assert(all.drop_last() =~= seq![head] + tail.drop_last());
        lemma_write_entries_front(head, tail.drop_last());
        assert(write_entries(all) =~= write_bytes(head.key) + write_value(head.value)
            + write_entries(tail));
    }
}

/// A value that was parsed is written, entries in the order held, as the very
/// bytes it was read from.
pub proof fn lemma_value_roundtrip(s: Seq<u8>, pos: int)
    requires
        parse_value(s, pos) is Done,
    ensures
        write_value(parse_value(s, pos)->value) == s.subrange(pos, parse_value(s, pos)->end),
    decreases s.len() - pos, 0int,
{
    lemma_parse_value_bounds(s, pos);
    let end = parse_value(s, pos)->end;
    if is_digit(s[pos]) {
        lemma_bytes_roundtrip(s, pos);
    } else if s[pos] == 0x69 {
        lemma_int_roundtrip(s, pos);
    } else if s[pos] == 0x6c {
        lemma_items_roundtrip(s, pos + 1);
        lemma_parse_items_bounds(s, pos + 1);
        let items = parse_items(s, pos + 1)->value;
        assert(seq![0x6cu8] + write_items(items) + seq![0x65u8] =~= s.subrange(pos, end)) by {
            assert(s.subrange(pos, end) =~= seq![0x6cu8] + s.subrange(pos + 1, end));
        }
    } else {
        lemma_entries_roundtrip(s, pos + 1);
        lemma_parse_entries_bounds(s, pos + 1);
        let entries = parse_entries(s, pos + 1)->value;
        assert(seq![0x64u8] + write_entries(entries) + seq![0x65u8] =~= s.subrange(pos, end)) by {
            assert(s.subrange(pos, end) =~= seq![0x64u8] + s.subrange(pos + 1, end));
        }
    }
}

/// The same for the items of a list, up to and with the closing `e`.
pub proof fn lemma_items_roundtrip(s: Seq<u8>, pos: int)
    requires
        parse_items(s, pos) is Done,
    ensures
        write_items(parse_items(s, pos)->value) + seq![0x65u8] == s.subrange(
            pos,
            parse_items(s, pos)->end,
        ),
    decreases s.len() - pos, 1int,
{
    lemma_parse_items_bounds(s, pos);
    let end = parse_items(s, pos)->end;
    if s[pos] == 0x65 {
        assert(Seq::<u8>::empty() + seq![0x65u8] =~= s.subrange(pos, pos + 1));
    } else {
        lemma_parse_value_bounds(s, pos);
        let head = parse_value(s, pos)->value;
        let next = parse_value(s, pos)->end;
        lemma_value_roundtrip(s, pos);
        lemma_parse_items_bounds(s, next);
        lemma_items_roundtrip(s, next);
        let tail = parse_items(s, next)->value;
        lemma_write_items_front(head, tail);
        assert(s.subrange(pos, end) =~= s.subrange(pos, next) + s.subrange(next, end));
        assert(write_items(seq![head] + tail) + seq![0x65u8] =~= s.subrange(pos, next) + (
        write_items(tail) + seq![0x65u8]));
    }
}

/// The same for the entries of a dictionary, up to and with the closing `e`.
pub proof fn lemma_entries_roundtrip(s: Seq<u8>, pos: int)
    requires
        parse_entries(s, pos) is Done,
    ensures
        write_entries(parse_entries(s, pos)->value) + seq![0x65u8] == s.subrange(
            pos,
            parse_entries(s, pos)->end,
        ),
    decreases s.len() - pos, 1int,
{
    lemma_parse_entries_bounds(s, pos);
    let end = parse_entries(s, pos)->end;
    if s[pos] == 0x65 {
        assert(Seq::<u8>::empty() + seq![0x65u8] =~= s.subrange(pos, pos + 1));
    } else {
        lemma_parse_bytes_bounds(s, pos);
        let key = parse_bytes(s, pos)->value;
        let after_key = parse_bytes(s, pos)->end;
        lemma_bytes_roundtrip(s, pos);
        lemma_parse_value_bounds(s, after_key);
        let head = parse_value(s, after_key)->value;
        let next = parse_value(s, after_key)->end;
        lemma_value_roundtrip(s, after_key);
        lemma_parse_entries_bounds(s, next);
        lemma_entries_roundtrip(s, next);
        let tail = parse_entries(s, next)->value;
        lemma_write_entries_front(BEntry { key, value: head }, tail);
        assert(s.subrange(pos, end) =~= s.subrange(pos, after_key) + s.subrange(after_key, next)
            + s.subrange(next, end));
        assert(write_entries(seq![BEntry { key, value: head }] + tail) + seq![0x65u8]
            =~= s.subrange(pos, after_key) + s.subrange(after_key, next) + (write_entries(tail)
            + seq![0x65u8]));
    }
}


/// The indices `0, 1, .., n - 1`.
pub open spec fn in_order(n: nat) -> Seq<int> {
    Seq::new(n, |i: int| i)
}

/// Entries that are held in key order are written in the order held.
pub proof fn lemma_key_order_sorted(entries: Seq<BEntry>, n: nat)
    requires
        n <= entries.len(),
        forall|i: int, j: int|
            0 <= i < j < entries.len() ==> lex_le(
                (#[trigger] entries[i]).key,
                (#[trigger] entries[j]).key,
            ),
    ensures
        key_order(entries, n) == in_order(n),
    decreases n,
{
    if n > 0 {
        lemma_key_order_sorted(entries, (n - 1) as nat);
        let before = in_order((n - 1) as nat);
        if n == 1 {
            assert(before.insert(0, 0) =~= in_order(1));
        } else {
            assert(before.last() == n - 2);
            assert(lex_le(entries[n - 2].key, entries[n - 1].key));
            assert(insertion_point(entries, before, n - 1) == n - 1);
            assert(before.insert(n - 1, n - 1) =~= in_order(n));
        }
    }
}

/// Where every dictionary holds its entries in key order, the canonical
/// encoding writes the value as it is held.
pub proof fn lemma_encode_sorted(v: BValue)
    requires
        keys_sorted(v),
    ensures
        encode_value(v) == write_value(v),
    decreases v, 0nat,
{
    match v {
        BValue::Bytes(_) => {},
        BValue::Int(_) => {},
        BValue::List(items) => {
            lemma_encode_items_sorted(items);
        },
        BValue::Dict(entries) => {
            lemma_key_order_sorted(entries, entries.len());
            lemma_encode_entries_sorted(entries, entries.len());
            assert(entries.take(entries.len() as int) =~= entries);
        },
    }
}

/// The same for the items of a list.
pub proof fn lemma_encode_items_sorted(items: Seq<BValue>)
    requires
        forall|i: int| 0 <= i < items.len() ==> keys_sorted(#[trigger] items[i]),
    ensures
        encode_items(items) == write_items(items),
    decreases items, 0nat,
{
    if items.len() > 0 {
        lemma_encode_items_sorted(items.drop_last());
        lemma_encode_sorted(items.last());
    }
}

/// The same for the first `n` entries of a dictionary, taken in the order
/// held.
pub proof fn lemma_encode_entries_sorted(entries: Seq<BEntry>, n: nat)
    requires
        n <= entries.len(),
        forall|i: int| 0 <= i < entries.len() ==> keys_sorted((#[trigger] entries[i]).value),
    ensures
        encode_entries(entries, in_order(n)) == write_entries(entries.take(n as int)),
    decreases entries, n,
{
    if n > 0 {
        lemma_encode_entries_sorted(entries, (n - 1) as nat);
        lemma_encode_sorted(entries[n - 1].value);
        assert(in_order(n).drop_last() =~= in_order((n - 1) as nat));
        assert(entries.take(n as int).drop_last() =~= entries.take(n - 1));
    } else {
        assert(entries.take(0) =~= Seq::<BEntry>::empty());
    }
}

/// Round trip: where an input decodes, and the keys of every dictionary in it
/// are in lexicographic order, encoding the decoded value gives back exactly
/// the bytes that were read.
pub proof fn lemma_decode_encode_roundtrip(s: Seq<u8>)
    requires
        parse_value(s, 0) is Done,
        keys_sorted(parse_value(s, 0)->value),
    ensures
        encode_value(parse_value(s, 0)->value) == s.subrange(0, parse_value(s, 0)->end),
        parse_value(s, 0)->end == s.len() ==> encode_value(parse_value(s, 0)->value) == s,
{
    lemma_value_roundtrip(s, 0);
    lemma_encode_sorted(parse_value(s, 0)->value);
    assert(s.subrange(0, s.len() as int) =~= s);
}


/// Ten to the power of `k`.
pub open spec fn pow10(k: nat) -> nat
    decreases k,
{
    if k == 0 {
        1
    } else {
        10 * pow10((k - 1) as nat)
    }
}

/// A number below ten to the `k` is written with at most `k` digits, and
/// with at least one.
pub proof fn lemma_decimal_digits_len(n: nat, k: nat)
    requires
        k >= 1,
        n < pow10(k),
    ensures
        1 <= decimal_digits(n).len() <= k,
    decreases k,
{
    if n >= 10 {
        assert(pow10(1) == 10) by {
            assert(pow10(0) == 1);
        }
        assert(k >= 2);
        lemma_decimal_digits_len(n / 10, (k - 1) as nat);
    }
}

/// A dictionary of one entry is written as that entry between `d` and `e`.
pub proof fn lemma_encode_single(entry: BEntry)
    ensures
        encode_value(BValue::Dict(seq![entry])) == seq![0x64u8] + write_bytes(entry.key)
            + encode_value(entry.value) + seq![0x65u8],
{
    let entries = seq![entry];
    assert(key_order(entries, 0) =~= Seq::<int>::empty());
    assert(insertion_point(entries, Seq::<int>::empty(), 0) == 0);
    assert(key_order(entries, 1) =~= seq![0int]) by {
        assert(key_order(entries, 1) == key_order(entries, 0).insert(
            insertion_point(entries, key_order(entries, 0), 0),
            0,
        ));
    }
    let order = seq![0int];
    assert(order.drop_last() =~= Seq::<int>::empty());
    assert(encode_entries(entries, Seq::<int>::empty()) =~= Seq::<u8>::empty());
    assert(encode_entries(entries, order) =~= write_bytes(entry.key) + encode_value(entry.value));
    assert(encode_value(BValue::Dict(entries)) =~= seq![0x64u8] + write_bytes(entry.key)
        + encode_value(entry.value) + seq![0x65u8]);
}

} // verus!

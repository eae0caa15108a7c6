//! What is written is read back: the decoder accepts everything the encoder
//! writes, and gives the value that was written.

use vstd::prelude::*;
use crate::bencode::grammar::{
    all_digits, decimal_digits, decimal_value, digits_end, encode_value, has_leading_zero,
    int_text, is_digit, keys_sorted, lemma_parse_bytes_bounds, lemma_parse_entries_bounds,
    lemma_parse_items_bounds, lemma_parse_value_bounds, parse_bytes, parse_entries, parse_int,
    parse_items, parse_value, write_bytes, write_entries, write_items, write_value, BEntry,
    BValue, Parse,
};
use crate::bencode::laws::{
    lemma_encode_sorted, lemma_value_roundtrip, lemma_write_entries_front,
    lemma_write_items_front,
};

verus! {

/// A value that fits the decoder's types: every integer in it fits in 64
/// signed bits.
pub open spec fn storable(v: BValue) -> bool
    decreases v,
{
    match v {
        BValue::Bytes(_) => true,
        BValue::Int(i) => i64::MIN <= i <= i64::MAX,
        BValue::List(items) => forall|i: int|
            0 <= i < items.len() ==> storable(#[trigger] items[i]),
        BValue::Dict(entries) => forall|i: int|
            0 <= i < entries.len() ==> storable((#[trigger] entries[i]).value),
    }
}

/// The bytes `w` stand in `s` from `pos` on.
pub open spec fn stands_at(s: Seq<u8>, pos: int, w: Seq<u8>) -> bool {
    0 <= pos && pos + w.len() <= s.len() && s.subrange(pos, pos + w.len()) == w
}

proof fn lemma_stands_split(s: Seq<u8>, pos: int, a: Seq<u8>, b: Seq<u8>)
    requires
        stands_at(s, pos, a + b),
    ensures
        stands_at(s, pos, a),
        stands_at(s, pos + a.len(), b),
{
    let w = a + b;
    assert forall|k: int| 0 <= k < w.len() implies s[pos + k] == w[k] by {
        assert(s.subrange(pos, pos + w.len())[k] == w[k]);
    }
    assert(s.subrange(pos, pos + a.len()) =~= a) by {
        assert forall|k: int| 0 <= k < a.len() implies s[pos + k] == a[k] by {
            assert(w[k] == a[k]);
        }
    }
    assert(s.subrange(pos + a.len(), pos + a.len() + b.len()) =~= b) by {
        assert forall|k: int| 0 <= k < b.len() implies s[pos + a.len() + k] == b[k] by {
            assert(w[a.len() + k] == b[k]);
        }
    }
}

/// The shortest decimal writing of a number is made of digits, has no
/// needless leading zero, and denotes the number.
pub proof fn lemma_decimal_digits(n: nat)
    ensures
        decimal_digits(n).len() >= 1,
        all_digits(decimal_digits(n), 0, decimal_digits(n).len() as int),
        n > 0 ==> decimal_digits(n)[0] != 0x30,
        !has_leading_zero(decimal_digits(n)),
        decimal_value(decimal_digits(n)) == n,
    decreases n,
{
    let digits = decimal_digits(n);
    if n < 10 {
        assert(digits.drop_last() =~= Seq::<u8>::empty());
        assert(decimal_value(digits.drop_last()) == 0);
    } else {
        lemma_decimal_digits(n / 10);
        let shorter = decimal_digits(n / 10);
        assert(digits.drop_last() =~= shorter);
        assert(digits[0] == shorter[0]);
        assert forall|j: int| 0 <= j < digits.len() implies is_digit(#[trigger] digits[j]) by {
            if j < shorter.len() {
                assert(digits[j] == shorter[j]);
            }
        }
    }
}

/// A run of digits that ends at the end of the input, or before a byte that
/// is no digit, is where `digits_end` stops.
proof fn lemma_digits_run(s: Seq<u8>, pos: int, digits: Seq<u8>)
    requires
        stands_at(s, pos, digits),
        all_digits(digits, 0, digits.len() as int),
        pos + digits.len() == s.len() || !is_digit(s[pos + digits.len()]),
    ensures
        digits_end(s, pos) == pos + digits.len(),
    decreases digits.len(),
{
    if digits.len() > 0 {
        let rest = digits.subrange(1, digits.len() as int);
        assert(digits =~= seq![digits[0]] + rest);
        lemma_stands_split(s, pos, seq![digits[0]], rest);
        assert(s[pos] == digits[0]) by {
            assert(s.subrange(pos, pos + 1)[0] == digits[0]);
        }
        assert(is_digit(digits[0]));
        assert forall|j: int| 0 <= j < rest.len() implies is_digit(#[trigger] rest[j]) by {
            assert(rest[j] == digits[j + 1]);
        }
        lemma_digits_run(s, pos + 1, rest);
    }
}

/// A byte string that was written is read back.
pub proof fn lemma_read_bytes(s: Seq<u8>, pos: int, b: Seq<u8>)
    requires
        stands_at(s, pos, write_bytes(b)),
    ensures
        parse_bytes(s, pos) == (Parse::Done { value: b, end: pos + write_bytes(b).len() }),
{
    let digits = decimal_digits(b.len());
    lemma_decimal_digits(b.len());
    lemma_stands_split(s, pos, digits + seq![0x3au8], b);
    lemma_stands_split(s, pos, digits, seq![0x3au8]);
    let colon = pos + digits.len();
    assert(s[colon] == 0x3a) by {
        assert(s.subrange(colon, colon + 1)[0] == 0x3a);
    }
    lemma_digits_run(s, pos, digits);
    assert(s[pos] == digits[0]) by {
        assert(s.subrange(pos, colon)[0] == digits[0]);
    }
    assert(is_digit(digits[0]));
}

/// An integer that was written is read back.
pub proof fn lemma_read_int(s: Seq<u8>, pos: int, i: int)
    requires
        i64::MIN <= i <= i64::MAX,
        stands_at(s, pos, seq![0x69u8] + int_text(i) + seq![0x65u8]),
    ensures
        parse_int(s, pos) == (Parse::Done {
            value: i,
            end: pos + 2 + int_text(i).len(),
        }),
{
    let text = int_text(i);
    lemma_stands_split(s, pos, seq![0x69u8] + text, seq![0x65u8]);
    lemma_stands_split(s, pos, seq![0x69u8], text);
    assert(s[pos] == 0x69) by {
        assert(s.subrange(pos, pos + 1)[0] == 0x69);
    }
    let close = pos + 1 + text.len();
    assert(s[close] == 0x65) by {
        assert(s.subrange(close, close + 1)[0] == 0x65);
    }
    if i < 0 {
        let digits = decimal_digits((-i) as nat);
        lemma_decimal_digits((-i) as nat);
        lemma_stands_split(s, pos + 1, seq![0x2du8], digits);
        assert(s[pos + 1] == 0x2d) by {
            assert(s.subrange(pos + 1, pos + 2)[0] == 0x2d);
        }
        lemma_digits_run(s, pos + 2, digits);
    } else {
        let digits = decimal_digits(i as nat);
        lemma_decimal_digits(i as nat);
        assert(s[pos + 1] == digits[0]) by {
            assert(s.subrange(pos + 1, pos + 1 + digits.len())[0] == digits[0]);
        }
        assert(is_digit(digits[0]));
        lemma_digits_run(s, pos + 1, digits);
    }
}

/// Whatever is written starts with a digit, `i`, `l` or `d`: never with the
/// `e` that closes a list or a dictionary.
proof fn lemma_first_byte(v: BValue)
    ensures
        write_value(v).len() >= 1,
        write_value(v)[0] != 0x65,
        v is Bytes ==> is_digit(write_value(v)[0]),
        v is Int ==> write_value(v)[0] == 0x69,
        v is List ==> write_value(v)[0] == 0x6c,
        v is Dict ==> write_value(v)[0] == 0x64,
{
    if let BValue::Bytes(b) = v {
        lemma_decimal_digits(b.len());
        let digits = decimal_digits(b.len());
        assert(write_bytes(b)[0] == digits[0]);
        assert(is_digit(digits[0]));
    }
}

/// A value that was written, entries in the order held, is read back: where
/// its bytes stand in an input, the decoder finds the value there and stops
/// right behind it.
pub proof fn lemma_read_value(s: Seq<u8>, pos: int, v: BValue)
    requires
        storable(v),
        stands_at(s, pos, write_value(v)),
    ensures
        parse_value(s, pos) == (Parse::Done { value: v, end: pos + write_value(v).len() }),
    decreases v, 0nat,
{
    lemma_first_byte(v);
    let w = write_value(v);
    assert(s[pos] == w[0]) by {
        assert(s.subrange(pos, pos + w.len())[0] == w[0]);
    }
    match v {
        BValue::Bytes(b) => {
            lemma_read_bytes(s, pos, b);
        },
        BValue::Int(i) => {
            lemma_read_int(s, pos, i);
        },
        BValue::List(items) => {
            let inner = write_items(items) + seq![0x65u8];
            assert(w =~= seq![0x6cu8] + inner);
            lemma_stands_split(s, pos, seq![0x6cu8], inner);
            lemma_read_items(s, pos + 1, items);
        },
        BValue::Dict(entries) => {
            let inner = write_entries(entries) + seq![0x65u8];
            assert(w =~= seq![0x64u8] + inner);
            lemma_stands_split(s, pos, seq![0x64u8], inner);
            lemma_read_entries(s, pos + 1, entries);
        },
    }
}

proof fn lemma_read_items(s: Seq<u8>, pos: int, items: Seq<BValue>)
    requires
        forall|i: int| 0 <= i < items.len() ==> storable(#[trigger] items[i]),
        stands_at(s, pos, write_items(items) + seq![0x65u8]),
    ensures
        parse_items(s, pos) == (Parse::Done {
            value: items,
            end: pos + write_items(items).len() + 1,
        }),
    decreases items, 1nat,
{
    if items.len() == 0 {
        assert(s[pos] == 0x65) by {
            assert(s.subrange(pos, pos + 1)[0] == 0x65);
        }
        assert(items =~= Seq::<BValue>::empty());
    } else {
        let head = items[0];
        let tail = items.subrange(1, items.len() as int);
        assert(items =~= seq![head] + tail);
        lemma_write_items_front(head, tail);
        let first = write_value(head);
        let others = write_items(tail) + seq![0x65u8];
        assert(write_items(items) + seq![0x65u8] =~= first + others);
        lemma_stands_split(s, pos, first, others);
        lemma_first_byte(head);
        assert(s[pos] == first[0]) by {
            assert(s.subrange(pos, pos + first.len())[0] == first[0]);
        }
        lemma_read_value(s, pos, head);
        assert forall|i: int| 0 <= i < tail.len() implies storable(#[trigger] tail[i]) by {
            assert(tail[i] == items[i + 1]);
        }
        lemma_read_items(s, pos + first.len(), tail);
    }
}

proof fn lemma_read_entries(s: Seq<u8>, pos: int, entries: Seq<BEntry>)
    requires
        forall|i: int| 0 <= i < entries.len() ==> storable((#[trigger] entries[i]).value),
        stands_at(s, pos, write_entries(entries) + seq![0x65u8]),
    ensures
        parse_entries(s, pos) == (Parse::Done {
            value: entries,
            end: pos + write_entries(entries).len() + 1,
        }),
    decreases entries, 1nat,
{
    if entries.len() == 0 {
        assert(s[pos] == 0x65) by {
            assert(s.subrange(pos, pos + 1)[0] == 0x65);
        }
        assert(entries =~= Seq::<BEntry>::empty());
    } else {
        let head = entries[0];
        let tail = entries.subrange(1, entries.len() as int);
        assert(entries =~= seq![head] + tail);
        lemma_write_entries_front(head, tail);
        let key = write_bytes(head.key);
        let value = write_value(head.value);
        let others = write_entries(tail) + seq![0x65u8];
        assert(write_entries(entries) + seq![0x65u8] =~= key + (value + others));
        lemma_stands_split(s, pos, key, value + others);
        lemma_stands_split(s, pos + key.len(), value, others);
        lemma_decimal_digits(head.key.len());
        assert(s[pos] == key[0]) by {
            assert(s.subrange(pos, pos + key.len())[0] == key[0]);
        }
        assert(key[0] == decimal_digits(head.key.len())[0]);
        assert(is_digit(key[0]));
        lemma_read_bytes(s, pos, head.key);
        lemma_first_byte(head.value);
        lemma_read_value(s, pos + key.len(), head.value);
        assert forall|i: int| 0 <= i < tail.len() implies storable(
            (#[trigger] tail[i]).value,
        ) by {
            assert(tail[i] == entries[i + 1]);
        }
        lemma_read_entries(s, pos + key.len() + value.len(), tail);
        assert(head == (BEntry { key: head.key, value: head.value }));
    }
}

/// Round trip the other way: a value whose dictionaries hold their entries
/// in key order, encoded and decoded again, is the same value, and the
/// decoder takes exactly the bytes that the encoder wrote, whatever stands
/// behind them.
pub proof fn lemma_encode_decode_roundtrip(v: BValue, rest: Seq<u8>)
    requires
        storable(v),
        keys_sorted(v),
    ensures
        parse_value(encode_value(v) + rest, 0) == (Parse::Done {
            value: v,
            end: encode_value(v).len() as int,
        }),
{
    lemma_encode_sorted(v);
    let s = encode_value(v) + rest;
    assert(s.subrange(0, encode_value(v).len() as int) =~= encode_value(v));
    lemma_read_value(s, 0, v);
}


/// Whatever the decoder reads fits its types.
pub proof fn lemma_parsed_is_storable(s: Seq<u8>, pos: int)
    requires
        parse_value(s, pos) is Done,
    ensures
        storable(parse_value(s, pos)->value),
    decreases s.len() - pos, 0int,
{
    lemma_parse_value_bounds(s, pos);
    if s[pos] == 0x6c {
        lemma_parsed_items_are_storable(s, pos + 1);
    } else if s[pos] == 0x64 {
        lemma_parsed_entries_are_storable(s, pos + 1);
    }
}

proof fn lemma_parsed_items_are_storable(s: Seq<u8>, pos: int)
    requires
        parse_items(s, pos) is Done,
    ensures
        forall|i: int|
            0 <= i < parse_items(s, pos)->value.len() ==> storable(
                #[trigger] parse_items(s, pos)->value[i],
            ),
    decreases s.len() - pos, 1int,
{
    lemma_parse_items_bounds(s, pos);
    if s[pos] != 0x65 {
        lemma_parse_value_bounds(s, pos);
        let next = parse_value(s, pos)->end;
        lemma_parsed_is_storable(s, pos);
        lemma_parsed_items_are_storable(s, next);
    }
}

proof fn lemma_parsed_entries_are_storable(s: Seq<u8>, pos: int)
    requires
        parse_entries(s, pos) is Done,
    ensures
        forall|i: int|
            0 <= i < parse_entries(s, pos)->value.len() ==> storable(
                (#[trigger] parse_entries(s, pos)->value[i]).value,
            ),
    decreases s.len() - pos, 1int,
{
    lemma_parse_entries_bounds(s, pos);
    if s[pos] != 0x65 {
        lemma_parse_bytes_bounds(s, pos);
        let after_key = parse_bytes(s, pos)->end;
        lemma_parse_value_bounds(s, after_key);
        let next = parse_value(s, after_key)->end;
        lemma_parsed_is_storable(s, after_key);
        lemma_parsed_entries_are_storable(s, next);
    }
}

/// The decoder looks at nothing but the value it reads: an input that
/// begins with the same bytes, up to where the value ends, decodes to the
/// same value and the same end.
pub proof fn lemma_decode_reads_its_bytes_only(s: Seq<u8>, other: Seq<u8>)
    requires
        parse_value(s, 0) is Done,
        other.len() >= parse_value(s, 0)->end,
        other.subrange(0, parse_value(s, 0)->end) == s.subrange(0, parse_value(s, 0)->end),
    ensures
        parse_value(other, 0) == parse_value(s, 0),
{
    let value = parse_value(s, 0)->value;
    lemma_parse_value_bounds(s, 0);
    lemma_parsed_is_storable(s, 0);
    lemma_value_roundtrip(s, 0);
    lemma_read_value(other, 0, value);
}

} // verus!

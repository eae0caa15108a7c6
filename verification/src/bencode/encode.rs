//! Writing values as bencode, dictionaries with their keys in order.

use vstd::prelude::*;
use crate::bencode::grammar::{
    decimal_digits, encode_entries, encode_items, encode_value, insertion_point, int_text,
    key_order, lex_le, write_bytes, BValue,
};
use crate::bencode::{entries_view, items_view, BencodeValue, DictEntry};
use crate::bytes::append_bytes;

verus! {

/// Appends the shortest decimal writing of `n`.
pub fn write_decimal(n: u64, out: &mut Vec<u8>)
    ensures
        final(out)@ == old(out)@ + decimal_digits(n as nat),
    decreases n,
{
    if n >= 10 {
        write_decimal(n / 10, out);
    }
    out.push((n % 10) as u8 + 0x30);
    assert(out@ =~= old(out)@ + decimal_digits(n as nat));
}

fn write_int(i: i64, out: &mut Vec<u8>)
    ensures
        final(out)@ == old(out)@ + int_text(i as int),
{
    if i < 0 {
        out.push(0x2d);
        let magnitude: u64 = (-(i as i128)) as u64;
        write_decimal(magnitude, out);
        assert(out@ =~= old(out)@ + int_text(i as int));
    } else {
        write_decimal(i as u64, out);
    }
}

fn write_byte_string(bytes: &[u8], out: &mut Vec<u8>)
    ensures
        final(out)@ == old(out)@ + write_bytes(bytes@),
{
    write_decimal(bytes.len() as u64, out);
    out.push(0x3a);
    append_bytes(out, bytes);
    assert(out@ =~= old(out)@ + write_bytes(bytes@));
}

/// Whether `a` comes no later than `b` in lexicographic order.
pub fn bytes_le(a: &[u8], b: &[u8]) -> (le: bool)
    ensures
        le == lex_le(a@, b@),
{
    let mut i: usize = 0;
    assert(a@.skip(0) =~= a@ && b@.skip(0) =~= b@);
    loop
        invariant
            i <= a.len(),
            i <= b.len(),
            lex_le(a@, b@) == lex_le(a@.skip(i as int), b@.skip(i as int)),
        decreases a.len() - i,
    {
        if i >= a.len() {
            return true;
        }
        if i >= b.len() {
            return false;
        }
        if a[i] != b[i] {
            return a[i] < b[i];
        }
        assert(a@.skip(i as int).drop_first() =~= a@.skip(i + 1));
        assert(b@.skip(i as int).drop_first() =~= b@.skip(i + 1));
        i += 1;
    }
}

/// Entry indices as mathematical integers.
pub open spec fn indices(order: Seq<usize>) -> Seq<int> {
    Seq::new(order.len(), |j: int| order[j] as int)
}

/// The indices of the entries, ordered by key; entries with equal keys keep
/// their order.
pub(crate) fn sorted_indices(entries: &Vec<DictEntry>) -> (order: Vec<usize>)
    ensures
        indices(order@) == key_order(entries_view(entries@), entries.len() as nat),
        forall|j: int| 0 <= j < order.len() ==> order[j] < entries.len(),
{
    let ghost view = entries_view(entries@);
    let mut order: Vec<usize> = Vec::new();
    let mut n: usize = 0;
    while n < entries.len()
        invariant
            n <= entries.len(),
            view == entries_view(entries@),
            indices(order@) == key_order(view, n as nat),
            forall|j: int| 0 <= j < order.len() ==> order[j] < n,
        decreases entries.len() - n,
    {
        let mut p = order.len();
        assert(indices(order@).take(p as int) =~= indices(order@));
        while p > 0 && !bytes_le(entries[order[p - 1]].key.as_slice(), entries[n].key.as_slice())
            invariant
                p <= order.len(),
                n < entries.len(),
                view == entries_view(entries@),
                forall|j: int| 0 <= j < order.len() ==> order[j] < n,
                insertion_point(view, indices(order@), n as int) == insertion_point(
                    view,
                    indices(order@).take(p as int),
                    n as int,
                ),
            decreases p,
        {
            assert(indices(order@).take(p as int).drop_last() =~= indices(order@).take(p - 1));
            p -= 1;
        }
        let ghost before = indices(order@);
        order.insert(p, n);
        assert(indices(order@) =~= before.insert(p as int, n as int));
        n += 1;
    }
    order
}

#[verifier::loop_isolation(false)]
fn encode_into(v: &BencodeValue, out: &mut Vec<u8>)
    ensures
        final(out)@ == old(out)@ + encode_value(v@),
    decreases v,
{
    match v {
        BencodeValue::Bytes(bytes) => {
            write_byte_string(bytes.as_slice(), out);
        },
        BencodeValue::Int(i) => {
            out.push(0x69);
            write_int(*i, out);
            out.push(0x65);
            assert(out@ =~= old(out)@ + encode_value(v@));
        },
        BencodeValue::List(items) => {
            let ghost view = items_view(items@);
            assert(v@ == BValue::List(view)) by {
                assert(v@->List_0 =~= view);
            }
            out.push(0x6c);
            let ghost base = out@;
            let mut k: usize = 0;
            assert(view.take(0) =~= Seq::<BValue>::empty());
            while k < items.len()
                invariant
                    k <= items.len(),
                    view == items_view(items@),
                    out@ == base + encode_items(view.take(k as int)),
                decreases items.len() - k,
            {
                encode_into(&items[k], out);
                proof {
                    assert(view.take(k + 1).drop_last() =~= view.take(k as int));
                    assert(out@ =~= base + encode_items(view.take(k + 1)));
                }
                k += 1;
            }
            out.push(0x65);
            assert(view.take(items.len() as int) =~= view);
            assert(out@ =~= old(out)@ + encode_value(v@));
        },
        BencodeValue::Dict(entries) => {
            let ghost view = entries_view(entries@);
            assert(v@ == BValue::Dict(view)) by {
                assert(v@->Dict_0 =~= view);
            }
            let order = sorted_indices(entries);
            out.push(0x64);
            let ghost base = out@;
            let mut k: usize = 0;
            assert(indices(order@).take(0) =~= Seq::<int>::empty());
            while k < order.len()
                invariant
                    k <= order.len(),
                    view == entries_view(entries@),
                    forall|j: int| 0 <= j < order.len() ==> order[j] < entries.len(),
                    out@ == base + encode_entries(view, indices(order@).take(k as int)),
                decreases order.len() - k,
            {
                let entry = &entries[order[k]];
                write_byte_string(entry.key.as_slice(), out);
                encode_into(&entry.value, out);
                proof {
                    assert(indices(order@).take(k + 1).drop_last() =~= indices(order@).take(
                        k as int,
                    ));
                    assert(out@ =~= base + encode_entries(view, indices(order@).take(k + 1)));
                }
                k += 1;
            }
            out.push(0x65);
            assert(indices(order@).take(order.len() as int) =~= indices(order@));
            assert(out@ =~= old(out)@ + encode_value(v@));
        },
    }
}

/// The canonical bencoding of `value`: dictionaries are written with their
/// keys in lexicographic order, whatever order they are held in.
pub fn encode_bencoded_value(value: &BencodeValue) -> (out: Vec<u8>)
    ensures
        out@ == encode_value(value@),
{
    let mut out: Vec<u8> = Vec::new();
    encode_into(value, &mut out);
    assert(out@ =~= encode_value(value@));
    out
}

} // verus!

//! A decoded value shown as JSON text.

use vstd::prelude::*;
use vstd::string::StringExecFns;
use vstd::utf8::{decode_utf8, valid_utf8};
use crate::bencode::encode::{indices, sorted_indices};
use crate::bencode::grammar::{int_text, key_order, BEntry, BValue};
use crate::bencode::{entries_view, items_view, BencodeValue, DictEntry};
use crate::bytes::bytes_eq;

verus! {

/// The text that `String::from_utf8_lossy` reads from bytes: what they
/// encode where they are UTF-8, and else the same with U+FFFD in place of
/// every part that is not.
pub uninterp spec fn lossy_text(bytes: Seq<u8>) -> Seq<char>;

/// Calls `String::from_utf8_lossy`. The contract names the result, and says
/// that it is the decoded text where the bytes are UTF-8.
#[verifier::external_body]
fn text_lossy(bytes: &[u8]) -> (text: String)
    ensures
        text@ == lossy_text(bytes@),
        valid_utf8(bytes@) ==> text@ == decode_utf8(bytes@),
{
    String::from_utf8_lossy(bytes).into_owned()
}

/// A JSON string literal as `serde_json` writes it: the text between double
/// quotes, with quotes, backslashes and control characters escaped.
pub uninterp spec fn json_quoted(text: Seq<char>) -> Seq<char>;

/// Calls `serde_json`'s `Display` on a JSON string. The contract names the
/// result.
#[verifier::external_body]
fn json_string(text: &str) -> (literal: String)
    ensures
        literal@ == json_quoted(text@),
{
    serde_json::Value::from(text).to_string()
}

/// An integer in decimal, as characters.
pub open spec fn int_chars(i: int) -> Seq<char> {
    Seq::new(int_text(i).len(), |k: int| int_text(i)[k] as char)
}

/// Calls `serde_json`'s `Display` on a JSON number made from an `i64`, which
/// writes it in decimal, with `-` before a negative one.
#[verifier::external_body]
fn json_number(i: i64) -> (text: String)
    ensures
        text@ == int_chars(i as int),
{
    serde_json::Number::from(i).to_string()
}

/// Entry `i` is superseded: a later entry has the same key. An object holds
/// one member for a key, the last that the dictionary holds.
pub open spec fn superseded(entries: Seq<BEntry>, i: int) -> bool {
    exists|j: int| i < j < entries.len() && (#[trigger] entries[j]).key == entries[i].key
}

/// The indices of `order` that name entries which are not superseded.
pub open spec fn kept_order(entries: Seq<BEntry>, order: Seq<int>) -> Seq<int>
    decreases order.len(),
{
    if order.len() == 0 {
        Seq::empty()
    } else if superseded(entries, order.last()) {
        kept_order(entries, order.drop_last())
    } else {
        kept_order(entries, order.drop_last()).push(order.last())
    }
}

/// A value as compact JSON: a byte string as a string literal of its text,
/// an integer as a number, a list as an array, and a dictionary as an
/// object whose members stand in the lexicographic order of their keys,
/// one member for each key.
pub open spec fn json_value(v: BValue) -> Seq<char>
    decreases v, 0nat,
{
    match v {
        BValue::Bytes(b) => json_quoted(lossy_text(b)),
        BValue::Int(i) => int_chars(i),
        BValue::List(items) => "["@ + json_items(items) + "]"@,
        BValue::Dict(entries) => "{"@ + json_members(
            entries,
            kept_order(entries, key_order(entries, entries.len())),
        ) + "}"@,
    }
}

/// The items of an array, with commas between them.
pub open spec fn json_items(items: Seq<BValue>) -> Seq<char>
    decreases items, 0nat,
{
    if items.len() == 0 {
        Seq::empty()
    } else if items.len() == 1 {
        json_value(items.last())
    } else {
        json_items(items.drop_last()) + ","@ + json_value(items.last())
    }
}

/// The members of an object that `order` names, each as `"key":value`, with
/// commas between them.
pub open spec fn json_members(entries: Seq<BEntry>, order: Seq<int>) -> Seq<char>
    decreases entries, order.len(),
{
    if order.len() == 0 {
        Seq::empty()
    } else if !(0 <= order.last() < entries.len()) {
        json_members(entries, order.drop_last())
    } else if order.len() == 1 {
        json_quoted(lossy_text(entries[order.last()].key)) + ":"@ + json_value(
            entries[order.last()].value,
        )
    } else {
        json_members(entries, order.drop_last()) + ","@ + json_quoted(
            lossy_text(entries[order.last()].key),
        ) + ":"@ + json_value(entries[order.last()].value)
    }
}

fn is_superseded(entries: &Vec<DictEntry>, i: usize) -> (yes: bool)
    requires
        i < entries.len(),
    ensures
        yes == superseded(entries_view(entries@), i as int),
{
    let ghost view = entries_view(entries@);
    let mut j: usize = i + 1;
    while j < entries.len()
        invariant
            i < j <= entries.len(),
            view == entries_view(entries@),
            forall|m: int| i < m < j ==> (#[trigger] view[m]).key != view[i as int].key,
        decreases entries.len() - j,
    {
        if bytes_eq(entries[j].key.as_slice(), entries[i].key.as_slice()) {
            assert(view[j as int].key == view[i as int].key);
            return true;
        }
        j += 1;
    }
    false
}

/// The indices of `order` whose entries are not superseded, in the same
/// order.
fn kept_indices(entries: &Vec<DictEntry>, order: &Vec<usize>) -> (kept: Vec<usize>)
    requires
        forall|j: int| 0 <= j < order.len() ==> order[j] < entries.len(),
    ensures
        indices(kept@) == kept_order(entries_view(entries@), indices(order@)),
        forall|j: int| 0 <= j < kept.len() ==> kept[j] < entries.len(),
{
    let ghost view = entries_view(entries@);
    let mut kept: Vec<usize> = Vec::new();
    let mut k: usize = 0;
    assert(indices(order@).take(0) =~= Seq::<int>::empty());
    assert(indices(kept@) =~= Seq::<int>::empty());
    while k < order.len()
        invariant
            k <= order.len(),
            view == entries_view(entries@),
            forall|j: int| 0 <= j < order.len() ==> order[j] < entries.len(),
            forall|j: int| 0 <= j < kept.len() ==> kept[j] < entries.len(),
            indices(kept@) == kept_order(view, indices(order@).take(k as int)),
        decreases order.len() - k,
    {
        let ghost before = indices(kept@);
        assert(indices(order@).take(k + 1).drop_last() =~= indices(order@).take(k as int));
        assert(indices(order@).take(k + 1).last() == order[k as int]);
        if !is_superseded(entries, order[k]) {
            kept.push(order[k]);
            assert(indices(kept@) =~= before.push(order[k as int] as int));
        }
        k += 1;
    }
    assert(indices(order@).take(order.len() as int) =~= indices(order@));
    kept
}

#[verifier::loop_isolation(false)]
fn write_json(v: &BencodeValue, out: &mut String)
    ensures
        final(out)@ == old(out)@ + json_value(v@),
    decreases v,
{
    match v {
        BencodeValue::Bytes(bytes) => {
            out.append(json_string(text_lossy(bytes.as_slice()).as_str()).as_str());
        },
        BencodeValue::Int(i) => {
            out.append(json_number(*i).as_str());
        },
        BencodeValue::List(items) => {
            let ghost view = items_view(items@);
            assert(v@ == BValue::List(view)) by {
                assert(v@->List_0 =~= view);
            }
            out.append("[");
            let ghost base = out@;
            let mut k: usize = 0;
            assert(view.take(0) =~= Seq::<BValue>::empty());
            while k < items.len()
                invariant
                    k <= items.len(),
                    out@ == base + json_items(view.take(k as int)),
                decreases items.len() - k,
            {
                if k > 0 {
                    out.append(",");
                }
                write_json(&items[k], out);
                proof {
                    assert(view.take(k + 1).drop_last() =~= view.take(k as int));
                    assert(out@ =~= base + json_items(view.take(k + 1)));
                }
                k += 1;
            }
            out.append("]");
            assert(view.take(items.len() as int) =~= view);
            assert(out@ =~= old(out)@ + json_value(v@));
        },
        BencodeValue::Dict(entries) => {
            let ghost view = entries_view(entries@);
            assert(v@ == BValue::Dict(view)) by {
                assert(v@->Dict_0 =~= view);
            }
            let sorted = sorted_indices(entries);
            let order = kept_indices(entries, &sorted);
            out.append("{");
            let ghost base = out@;
            let mut k: usize = 0;
            assert(indices(order@).take(0) =~= Seq::<int>::empty());
            while k < order.len()
                invariant
                    k <= order.len(),
                    out@ == base + json_members(view, indices(order@).take(k as int)),
                decreases order.len() - k,
            {
                if k > 0 {
                    out.append(",");
                }
                let entry = &entries[order[k]];
                out.append(json_string(text_lossy(entry.key.as_slice()).as_str()).as_str());
                out.append(":");
                write_json(&entry.value, out);
                proof {
                    assert(indices(order@).take(k + 1).drop_last() =~= indices(order@).take(
                        k as int,
                    ));
                    assert(out@ =~= base + json_members(view, indices(order@).take(k + 1)));
                }
                k += 1;
            }
            out.append("}");
            assert(indices(order@).take(order.len() as int) =~= indices(order@));
            assert(out@ =~= old(out)@ + json_value(v@));
        },
    }
}

/// Shows a decoded value as compact JSON text.
pub fn jsonify(value: &BencodeValue) -> (text: String)
    ensures
        text@ == json_value(value@),
{
    let mut text = String::new();
    write_json(value, &mut text);
    assert(text@ =~= json_value(value@));
    text
}

} // verus!

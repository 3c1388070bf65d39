use vstd::prelude::*;

use crate::hex::{hex_digit, hex_text, write_hex};

verus! {

/// A field element, held as its big-endian bytes.
#[derive(Debug)]
pub struct Felt {
    pub bytes: Vec<u8>,
}

/// A node of the verifier's ABI tree: a field element, an ordered list, or a
/// record whose fields keep their declared order.
#[derive(Debug)]
pub enum AbiValue {
    Scalar(Felt),
    List(Vec<AbiValue>),
    Record(Vec<AbiField>),
}

/// One named field of a record; the name is the JSON key, as bytes.
#[derive(Debug)]
pub struct AbiField {
    pub name: Vec<u8>,
    pub value: AbiValue,
}

pub open spec fn lit(c: u8) -> Seq<u8> {
    seq![c]
}

/// A key byte as it stands inside a JSON string: `"` and `\` take a
/// backslash, control bytes take a `\u00XX` escape.
pub open spec fn escape_byte(b: u8) -> Seq<u8> {
    if b == 34 || b == 92 {
        seq![92u8, b]
    } else if b < 32 {
        seq![92u8, 117u8, 48u8, 48u8, hex_digit((b / 16) as int), hex_digit((b % 16) as int)]
    } else {
        seq![b]
    }
}

pub open spec fn escape(s: Seq<u8>) -> Seq<u8>
    decreases s.len(),
{
    if s.len() == 0 {
        seq![]
    } else {
        escape(s.drop_last()) + escape_byte(s.last())
    }
}

/// The JSON text of a value: a field element as a quoted hex string, a list
/// as an array in order, a record as an object with its keys in order.
pub open spec fn json_text(v: AbiValue) -> Seq<u8>
    decreases v,
{
    match v {
        AbiValue::Scalar(f) => lit(34) + hex_text(f.bytes@) + lit(34),
        AbiValue::List(items) => lit(91) + json_items(items@) + lit(93),
        AbiValue::Record(fields) => lit(123) + json_fields(fields@) + lit(125),
    }
}

/// The JSON texts of `items`, separated by commas.
pub open spec fn json_items(items: Seq<AbiValue>) -> Seq<u8>
    decreases items,
{
    if items.len() == 0 {
        seq![]
    } else if items.len() == 1 {
        json_text(items[0])
    } else {
        json_items(items.drop_last()) + lit(44) + json_text(items.last())
    }
}

/// `"key":value` for each field, separated by commas.
pub open spec fn json_fields(fields: Seq<AbiField>) -> Seq<u8>
    decreases fields,
{
    if fields.len() == 0 {
        seq![]
    } else if fields.len() == 1 {
        json_field(fields[0])
    } else {
        json_fields(fields.drop_last()) + lit(44) + json_field(fields.last())
    }
}

pub open spec fn json_field(f: AbiField) -> Seq<u8>
    decreases f,
{
    lit(34) + escape(f.name@) + lit(34) + lit(58) + json_text(f.value)
}

/// Appends the escaped bytes of `s` to `out`.
fn write_escaped(s: &Vec<u8>, out: &mut Vec<u8>)
    ensures
        final(out)@ == old(out)@ + escape(s@),
{
    let mut i: usize = 0;
    while i < s.len()
        invariant
            i <= s@.len(),
            out@ == old(out)@ + escape(s@.subrange(0, i as int)),
        decreases s@.len() - i,
    {
        let b = s[i];
        if b == 34 || b == 92 {
            out.push(92);
            out.push(b);
        } else if b < 32 {
            out.push(92);
            out.push(117);
            out.push(48);
            out.push(48);
            out.push(if b / 16 < 10 { 48 + b / 16 } else { 87 + b / 16 });
            out.push(if b % 16 < 10 { 48 + b % 16 } else { 87 + b % 16 });
        } else {
            out.push(b);
        }
        proof {
            let pre = s@.subrange(0, i as int + 1);
            assert(pre.drop_last() =~= s@.subrange(0, i as int));
            assert(pre.last() == b);
            assert(out@ =~= old(out)@ + escape(pre));
        }
        i = i + 1;
    }
    assert(s@.subrange(0, s@.len() as int) =~= s@);
}

/// Appends `json_text(*v)` to `out`.
pub fn write_json(v: &AbiValue, out: &mut Vec<u8>)
    ensures
        final(out)@ == old(out)@ + json_text(*v),
    decreases v,
{
    broadcast use vstd::std_specs::vec::axiom_vec_index_decreases;

    match v {
        AbiValue::Scalar(f) => {
            out.push(34);
            write_hex(&f.bytes, out);
            out.push(34);
            assert(out@ =~= old(out)@ + json_text(*v));
        },
        AbiValue::List(items) => {
            out.push(91);
            let ghost base = out@;
            let mut i: usize = 0;
            while i < items.len()
                invariant
                    *v == AbiValue::List(*items),
                    i <= items@.len(),
                    out@ == base + json_items(items@.subrange(0, i as int)),
                decreases items@.len() - i,
            {
                if i > 0 {
                    out.push(44);
                }
                proof {
                    assert(decreases_to!(*v => v->List_0));
                    assert(decreases_to!(*items => items[i as int]));
                }
                write_json(&items[i], out);
                proof {
                    let pre = items@.subrange(0, i as int + 1);
                    assert(pre.drop_last() =~= items@.subrange(0, i as int));
                    assert(pre.last() == items@[i as int]);
                    if i == 0 {
                        assert(pre[0] == items@[0]);
                    }
                    assert(out@ =~= base + json_items(pre));
                }
                i = i + 1;
            }
            assert(items@.subrange(0, items@.len() as int) =~= items@);
            out.push(93);
            assert(out@ =~= old(out)@ + json_text(*v));
        },
        AbiValue::Record(fields) => {
            out.push(123);
            let ghost base = out@;
            let mut i: usize = 0;
            while i < fields.len()
                invariant
                    *v == AbiValue::Record(*fields),
                    i <= fields@.len(),
                    out@ == base + json_fields(fields@.subrange(0, i as int)),
                decreases fields@.len() - i,
            {
                if i > 0 {
                    out.push(44);
                }
                let f = &fields[i];
                let ghost before = out@;
                out.push(34);
                write_escaped(&f.name, out);
                out.push(34);
                out.push(58);
                proof {
                    assert(decreases_to!(*v => v->Record_0));
                    assert(decreases_to!(*fields => fields[i as int]));
                    assert(decreases_to!(fields[i as int] => fields[i as int].value));
                }
                write_json(&f.value, out);
                proof {
                    assert(out@ =~= before + json_field(fields@[i as int]));
                    let pre = fields@.subrange(0, i as int + 1);
                    assert(pre.drop_last() =~= fields@.subrange(0, i as int));
                    assert(pre.last() == fields@[i as int]);
                    if i == 0 {
                        assert(pre[0] == fields@[0]);
                    }
                    assert(out@ =~= base + json_fields(pre));
                }
                i = i + 1;
            }
            assert(fields@.subrange(0, fields@.len() as int) =~= fields@);
            out.push(125);
            assert(out@ =~= old(out)@ + json_text(*v));
        },
    }
}

/// The JSON text of `v`, as bytes. The same tree always gives the same bytes.
pub fn to_json(v: &AbiValue) -> (r: Vec<u8>)
    ensures
        r@ == json_text(*v),
{
    let mut out: Vec<u8> = Vec::new();
    write_json(v, &mut out);
    assert(out@ =~= json_text(*v));
    out
}

} // verus!

use vstd::prelude::*;

use crate::abi::{escape, escape_byte, json_field, json_fields, json_items, json_text, lit, AbiField, AbiValue};
use crate::hex::{hex_digit, hex_text, nibble_digits, strip_zeros};

verus! {

/// The nesting of an ABI tree: which nodes are scalars, and the children of
/// each list and record in order.
pub enum Shape {
    Scalar,
    List(Seq<Shape>),
    Record(Seq<Shape>),
}

pub open spec fn shape_of(v: AbiValue) -> Shape
    decreases v,
{
    match v {
        AbiValue::Scalar(_) => Shape::Scalar,
        AbiValue::List(items) => Shape::List(item_shapes(items@)),
        AbiValue::Record(fields) => Shape::Record(field_shapes(fields@)),
    }
}

pub open spec fn item_shapes(items: Seq<AbiValue>) -> Seq<Shape>
    decreases items,
{
    if items.len() == 0 {
        seq![]
    } else {
        seq![shape_of(items[0])] + item_shapes(items.drop_first())
    }
}

pub open spec fn field_shapes(fields: Seq<AbiField>) -> Seq<Shape>
    decreases fields,
{
    if fields.len() == 0 {
        seq![]
    } else {
        seq![shape_of(fields[0].value)] + field_shapes(fields.drop_first())
    }
}

/// The position just past the closing quote of the JSON string whose
/// contents start at `i`; a backslash takes the next byte with it.
pub open spec fn skip_string(b: Seq<u8>, i: int) -> Option<int>
    decreases b.len() + 2 - i,
{
    if i < 0 || i >= b.len() {
        None
    } else if b[i] == 34 {
        Some(i + 1)
    } else if b[i] == 92 {
        skip_string(b, i + 2)
    } else {
        skip_string(b, i + 1)
    }
}

/// Parses the JSON value at `i` back to its shape, with the position just
/// past it.
pub open spec fn parse_value(b: Seq<u8>, i: int) -> Option<(Shape, int)>
    decreases b.len() - i, 1int,
{
    if i < 0 || i >= b.len() {
        None
    } else if b[i] == 34 {
        match skip_string(b, i + 1) {
            Some(j) => Some((Shape::Scalar, j)),
            None => None,
        }
    } else if b[i] == 91 {
        if i + 1 < b.len() && b[i + 1] == 93 {
            Some((Shape::List(seq![]), i + 2))
        } else {
            match parse_items(b, i + 1) {
                Some((s, j)) => Some((Shape::List(s), j)),
                None => None,
            }
        }
    } else if b[i] == 123 {
        if i + 1 < b.len() && b[i + 1] == 125 {
            Some((Shape::Record(seq![]), i + 2))
        } else {
            match parse_members(b, i + 1) {
                Some((s, j)) => Some((Shape::Record(s), j)),
                None => None,
            }
        }
    } else {
        None
    }
}

/// Parses `value (',' value)* ']'` from `i`.
pub open spec fn parse_items(b: Seq<u8>, i: int) -> Option<(Seq<Shape>, int)>
    decreases b.len() - i, 2int,
{
    if i < 0 || i >= b.len() {
        None
    } else {
        match parse_value(b, i) {
            Some((s, j)) => if j <= i || j >= b.len() {
                None
            } else if b[j] == 93 {
                Some((seq![s], j + 1))
            } else if b[j] == 44 {
                match parse_items(b, j + 1) {
                    Some((rest, k)) => Some((seq![s] + rest, k)),
                    None => None,
                }
            } else {
                None
            },
            None => None,
        }
    }
}

/// Parses `"key":value (',' "key":value)* '}'` from `i`.
pub open spec fn parse_members(b: Seq<u8>, i: int) -> Option<(Seq<Shape>, int)>
    decreases b.len() - i, 2int,
{
    if i < 0 || i >= b.len() || b[i] != 34 {
        None
    } else {
        match skip_string(b, i + 1) {
            Some(c) => if c <= i || c >= b.len() || b[c] != 58 {
                None
            } else {
                match parse_value(b, c + 1) {
                    Some((s, j)) => if j <= i || j >= b.len() {
                        None
                    } else if b[j] == 125 {
                        Some((seq![s], j + 1))
                    } else if b[j] == 44 {
                        match parse_members(b, j + 1) {
                            Some((rest, k)) => Some((seq![s] + rest, k)),
                            None => None,
                        }
                    } else {
                        None
                    },
                    None => None,
                }
            },
            None => None,
        }
    }
}

/// `json_items` read from the front: the first item, then a comma and the
/// rest.
proof fn lemma_items_front(items: Seq<AbiValue>)
    requires
        items.len() >= 2,
    ensures
        json_items(items) == json_text(items[0]) + lit(44) + json_items(items.drop_first()),
    decreases items.len(),
{
    let d = items.drop_first();
    if items.len() > 2 {
        lemma_items_front(items.drop_last());
        assert(items.drop_last().drop_first() =~= d.drop_last());
        assert(items.drop_last()[0] == items[0]);
        assert(d.last() == items.last());
        assert(json_items(d) == json_items(d.drop_last()) + lit(44) + json_text(d.last()));
        assert(json_items(items) =~= json_text(items[0]) + lit(44) + json_items(d));
    } else {
        assert(items.drop_last()[0] == items[0]);
        assert(d[0] == items.last());
        assert(json_items(items.drop_last()) == json_text(items[0]));
        assert(json_items(d) == json_text(items.last()));
        assert(json_items(items) =~= json_text(items[0]) + lit(44) + json_items(d));
    }
}

proof fn lemma_fields_front(fields: Seq<AbiField>)
    requires
        fields.len() >= 2,
    ensures
        json_fields(fields) == json_field(fields[0]) + lit(44) + json_fields(fields.drop_first()),
    decreases fields.len(),
{
    let d = fields.drop_first();
    if fields.len() > 2 {
        lemma_fields_front(fields.drop_last());
        assert(fields.drop_last().drop_first() =~= d.drop_last());
        assert(fields.drop_last()[0] == fields[0]);
        assert(d.last() == fields.last());
        assert(json_fields(d) == json_fields(d.drop_last()) + lit(44) + json_field(d.last()));
        assert(json_fields(fields) =~= json_field(fields[0]) + lit(44) + json_fields(d));
    } else {
        assert(fields.drop_last()[0] == fields[0]);
        assert(d[0] == fields.last());
        assert(json_fields(fields.drop_last()) == json_field(fields[0]));
        assert(json_fields(d) == json_field(fields.last()));
        assert(json_fields(fields) =~= json_field(fields[0]) + lit(44) + json_fields(d));
    }
}

/// No byte of `s` ends or escapes inside a JSON string.
pub open spec fn plain(s: Seq<u8>) -> bool {
    forall|k: int| 0 <= k < s.len() ==> #[trigger] s[k] != 34 && s[k] != 92
}

proof fn lemma_hex_digit_plain(d: int)
    requires
        0 <= d < 16,
    ensures
        hex_digit(d) != 34,
        hex_digit(d) != 92,
{
}

proof fn lemma_nibbles_plain(bytes: Seq<u8>)
    ensures
        plain(nibble_digits(bytes)),
    decreases bytes.len(),
{
    if bytes.len() > 0 {
        lemma_nibbles_plain(bytes.drop_last());
        lemma_hex_digit_plain((bytes.last() / 16) as int);
        lemma_hex_digit_plain((bytes.last() % 16) as int);
        let d = nibble_digits(bytes);
        let pre = nibble_digits(bytes.drop_last());
        assert forall|k: int| 0 <= k < d.len() implies #[trigger] d[k] != 34 && d[k] != 92 by {
            if k < pre.len() {
                assert(d[k] == pre[k]);
            }
        }
    }
}

proof fn lemma_strip_plain(d: Seq<u8>)
    requires
        plain(d),
    ensures
        plain(strip_zeros(d)),
    decreases d.len(),
{
    if d.len() > 0 && d[0] == 48 {
        assert forall|k: int| 0 <= k < d.drop_first().len() implies #[trigger] d.drop_first()[k]
            != 34 && d.drop_first()[k] != 92 by {
            assert(d.drop_first()[k] == d[k + 1]);
        }
        lemma_strip_plain(d.drop_first());
    }
}

proof fn lemma_hex_plain(bytes: Seq<u8>)
    ensures
        plain(hex_text(bytes)),
{
    lemma_nibbles_plain(bytes);
    lemma_strip_plain(nibble_digits(bytes));
    let s = strip_zeros(nibble_digits(bytes));
    let h = hex_text(bytes);
    assert forall|k: int| 0 <= k < h.len() implies #[trigger] h[k] != 34 && h[k] != 92 by {
        if k >= 2 && s.len() > 0 {
            assert(h[k] == s[k - 2]);
        }
    }
}

/// `b` holds `s + t` at `i`: it holds `s` at `i` and `t` right after.
proof fn lemma_split(b: Seq<u8>, i: int, s: Seq<u8>, t: Seq<u8>)
    requires
        0 <= i,
        i + s.len() + t.len() <= b.len(),
        b.subrange(i, i + s.len() + t.len()) == s + t,
    ensures
        b.subrange(i, i + s.len()) == s,
        b.subrange(i + s.len(), i + s.len() + t.len()) == t,
{
    let whole = b.subrange(i, i + s.len() + t.len());
    assert forall|k: int| 0 <= k < s.len() implies #[trigger] b.subrange(i, i + s.len())[k] == s[k] by {
        assert(whole[k] == (s + t)[k]);
    }
    assert forall|k: int| 0 <= k < t.len() implies #[trigger] b.subrange(
        i + s.len(),
        i + s.len() + t.len(),
    )[k] == t[k] by {
        assert(whole[s.len() + k] == (s + t)[s.len() + k]);
    }
    assert(b.subrange(i, i + s.len()) =~= s);
    assert(b.subrange(i + s.len(), i + s.len() + t.len()) =~= t);
}

/// `b` holds `s` at `i`: its byte `i + k` is `s[k]`.
proof fn lemma_at(b: Seq<u8>, i: int, s: Seq<u8>, k: int)
    requires
        0 <= i,
        i + s.len() <= b.len(),
        b.subrange(i, i + s.len()) == s,
        0 <= k < s.len(),
    ensures
        b[i + k] == s[k],
{
    assert(b.subrange(i, i + s.len())[k] == b[i + k]);
}

/// Scanning a string passes over plain bytes one at a time.
proof fn lemma_skip_plain(b: Seq<u8>, i: int, s: Seq<u8>)
    requires
        0 <= i,
        i + s.len() <= b.len(),
        b.subrange(i, i + s.len()) == s,
        plain(s),
    ensures
        skip_string(b, i) == skip_string(b, i + s.len()),
    decreases s.len(),
{
    if s.len() > 0 {
        lemma_at(b, i, s, 0);
        assert(s[0] != 34 && s[0] != 92);
        assert(s.subrange(0, 1) + s.drop_first() =~= s);
        lemma_split(b, i, s.subrange(0, 1), s.drop_first());
        assert forall|k: int| 0 <= k < s.drop_first().len() implies #[trigger] s.drop_first()[k]
            != 34 && s.drop_first()[k] != 92 by {
            assert(s.drop_first()[k] == s[k + 1]);
        }
        lemma_skip_plain(b, i + 1, s.drop_first());
    }
}

/// Scanning a string passes over an escaped key, escape by escape.
proof fn lemma_skip_escaped(b: Seq<u8>, i: int, n: Seq<u8>)
    requires
        0 <= i,
        i + escape(n).len() <= b.len(),
        b.subrange(i, i + escape(n).len()) == escape(n),
    ensures
        skip_string(b, i) == skip_string(b, i + escape(n).len()),
    decreases n.len(),
{
    if n.len() > 0 {
        let pre = escape(n.drop_last());
        let e = escape_byte(n.last());
        lemma_split(b, i, pre, e);
        lemma_skip_escaped(b, i, n.drop_last());
        let p = i + pre.len();
        let x = n.last();
        assert forall|k: int| 0 <= k < e.len() implies #[trigger] b[p + k] == e[k] by {
            lemma_at(b, p, e, k);
        }
        if x == 34 || x == 92 {
            assert(b[p] == 92);
            assert(skip_string(b, p) == skip_string(b, p + 2));
        } else if x < 32 {
            lemma_hex_digit_plain((x / 16) as int);
            lemma_hex_digit_plain((x % 16) as int);
            assert(b[p] == 92);
            assert(b[p + 2] == 48);
            assert(b[p + 3] == 48);
            assert(b[p + 4] == hex_digit((x / 16) as int));
            assert(b[p + 5] == hex_digit((x % 16) as int));
            assert(skip_string(b, p + 5) == skip_string(b, p + 6));
            assert(skip_string(b, p + 4) == skip_string(b, p + 5));
            assert(skip_string(b, p + 3) == skip_string(b, p + 4));
            assert(skip_string(b, p + 2) == skip_string(b, p + 3));
            assert(skip_string(b, p) == skip_string(b, p + 2));
        } else {
            assert(e[0] == x);
            assert(b[p + 0] == e[0]);
            assert(skip_string(b, p) == skip_string(b, p + 1));
        }
    }
}

/// The text of a value opens with a quote, a bracket or a brace.
proof fn lemma_first_byte(v: AbiValue)
    ensures
        json_text(v).len() >= 2,
        json_text(v)[0] == 34 || json_text(v)[0] == 91 || json_text(v)[0] == 123,
{
}

/// `b` holds the text of `v` at `i`: parsing there gives `v`'s shape and
/// stops just past that text.
proof fn lemma_parse_value(v: AbiValue, b: Seq<u8>, i: int)
    requires
        0 <= i,
        i + json_text(v).len() <= b.len(),
        b.subrange(i, i + json_text(v).len()) == json_text(v),
    ensures
        parse_value(b, i) == Some((shape_of(v), i + json_text(v).len())),
    decreases v,
{
    let t = json_text(v);
    lemma_at(b, i, t, 0);
    match v {
        AbiValue::Scalar(f) => {
            let h = hex_text(f.bytes@);
            lemma_hex_plain(f.bytes@);
            assert(t =~= lit(34) + (h + lit(34)));
            lemma_split(b, i, lit(34), h + lit(34));
            lemma_split(b, i + 1, h, lit(34));
            lemma_skip_plain(b, i + 1, h);
            lemma_at(b, i + 1 + h.len(), lit(34), 0);
        },
        AbiValue::List(items) => {
            let body = json_items(items@);
            assert(t == lit(91) + (body + lit(93)));
            lemma_split(b, i, lit(91), body + lit(93));
            if items@.len() == 0 {
                lemma_at(b, i + 1, body + lit(93), 0);
                assert(item_shapes(items@) =~= seq![]);
            } else {
                assert(decreases_to!(v => v->List_0));
                lemma_parse_items(items@, b, i + 1);
                if items@.len() == 1 {
                    lemma_first_byte(items@[0]);
                } else {
                    lemma_items_front(items@);
                    lemma_first_byte(items@[0]);
                }
                lemma_at(b, i + 1, body + lit(93), 0);
            }
        },
        AbiValue::Record(fields) => {
            let body = json_fields(fields@);
            assert(t == lit(123) + (body + lit(125)));
            lemma_split(b, i, lit(123), body + lit(125));
            if fields@.len() == 0 {
                lemma_at(b, i + 1, body + lit(125), 0);
                assert(field_shapes(fields@) =~= seq![]);
            } else {
                assert(decreases_to!(v => v->Record_0));
                lemma_parse_members(fields@, b, i + 1);
                if fields@.len() >= 2 {
                    lemma_fields_front(fields@);
                }
                lemma_at(b, i + 1, body + lit(125), 0);
            }
        },
    }
}

proof fn lemma_parse_items(items: Seq<AbiValue>, b: Seq<u8>, i: int)
    requires
        items.len() >= 1,
        0 <= i,
        i + json_items(items).len() + 1 <= b.len(),
        b.subrange(i, i + json_items(items).len() + 1) == json_items(items) + lit(93),
    ensures
        parse_items(b, i) == Some((item_shapes(items), i + json_items(items).len() + 1)),
    decreases items,
{
    let first = json_text(items[0]);
    let body = json_items(items);
    lemma_first_byte(items[0]);
    let d = items.drop_first();
    if items.len() == 1 {
        assert(body == first);
        lemma_split(b, i, first, lit(93));
        lemma_parse_value(items[0], b, i);
        lemma_at(b, i + first.len(), lit(93), 0);
        assert(item_shapes(d) =~= seq![]);
    } else {
        lemma_items_front(items);
        let rest = lit(44) + (json_items(d) + lit(93));
        assert(body + lit(93) == first + rest);
        lemma_split(b, i, first, rest);
        lemma_parse_value(items[0], b, i);
        let j = i + first.len();
        lemma_at(b, j, rest, 0);
        lemma_split(b, j, lit(44), json_items(d) + lit(93));
        lemma_parse_items(d, b, j + 1);
    }
}

proof fn lemma_parse_members(fields: Seq<AbiField>, b: Seq<u8>, i: int)
    requires
        fields.len() >= 1,
        0 <= i,
        i + json_fields(fields).len() + 1 <= b.len(),
        b.subrange(i, i + json_fields(fields).len() + 1) == json_fields(fields) + lit(125),
    ensures
        parse_members(b, i) == Some((field_shapes(fields), i + json_fields(fields).len() + 1)),
    decreases fields,
{
    let f = fields[0];
    let first = json_field(f);
    let body = json_fields(fields);
    let esc = escape(f.name@);
    let value = json_text(f.value);
    let d = fields.drop_first();
    let tail = if fields.len() == 1 {
        lit(125)
    } else {
        lit(44) + (json_fields(d) + lit(125))
    };
    if fields.len() == 1 {
        assert(body == first);
    } else {
        lemma_fields_front(fields);
    }
    assert(body + lit(125) == lit(34) + (esc + (lit(34) + (lit(58) + (value + tail)))));
    lemma_split(b, i, lit(34), esc + (lit(34) + (lit(58) + (value + tail))));
    lemma_at(b, i, lit(34), 0);
    lemma_split(b, i + 1, esc, lit(34) + (lit(58) + (value + tail)));
    lemma_skip_escaped(b, i + 1, f.name@);
    let q = i + 1 + esc.len();
    lemma_split(b, q, lit(34), lit(58) + (value + tail));
    lemma_at(b, q, lit(34), 0);
    let c = q + 1;
    lemma_split(b, c, lit(58), value + tail);
    lemma_at(b, c, lit(58), 0);
    lemma_split(b, c + 1, value, tail);
    assert(decreases_to!(f => f.value));
    lemma_parse_value(f.value, b, c + 1);
    lemma_first_byte(f.value);
    let j = c + 1 + value.len();
    lemma_at(b, j, tail, 0);
    assert(j == i + first.len());
    if fields.len() == 1 {
        assert(field_shapes(d) =~= seq![]);
    } else {
        lemma_split(b, j, lit(44), json_fields(d) + lit(125));
        lemma_parse_members(d, b, j + 1);
    }
}

/// Parsing the serializer's text back recovers the tree's shape: the same
/// nesting, every list and record with the same number of children in the
/// same order, and the whole text consumed.
pub proof fn lemma_round_trip_shape(v: AbiValue)
    ensures
        parse_value(json_text(v), 0) == Some((shape_of(v), json_text(v).len() as int)),
{
    let t = json_text(v);
    assert(t.subrange(0, t.len() as int) =~= t);
    lemma_parse_value(v, t, 0);
}

} // verus!

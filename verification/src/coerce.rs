//! Coercion of the OTLP typed value union into storable display text.
//!
//! This is a total function: strings pass through, scalars render in
//! their canonical text, bytes render as lowercase hex, containers
//! render recursively with ", " separators, and an absent value reads
//! as the empty string.

use vstd::prelude::*;

use crate::model::{AnyValue, KeyValue, LogRecord, Span};

verus! {

/// The display text of a union value.
pub open spec fn any_value_text(v: AnyValue) -> Seq<char>
    decreases v,
{
    match v {
        AnyValue::StringValue(s) => s@,
        AnyValue::BoolValue(b) => if b {
            "true"@
        } else {
            "false"@
        },
        AnyValue::IntValue(i) => crate::codec::dec_of_i64(i as int),
        AnyValue::DoubleValue(s) => s@,
        AnyValue::ArrayValue(arr) => seq!['['] + joined_values(
            arr.values@,
            arr.values@.len() as int,
        ) + seq![']'],
        AnyValue::KvlistValue(kvs) => seq!['{'] + joined_pairs(
            kvs.values@,
            kvs.values@.len() as int,
        ) + seq!['}'],
        AnyValue::BytesValue(b) => crate::codec::hex_of(b@),
    }
}

/// The display text of an optional union value; an absent value reads
/// as the empty string.
pub open spec fn opt_value_text(v: Option<AnyValue>) -> Seq<char> {
    match v {
        Some(av) => any_value_text(av),
        None => Seq::empty(),
    }
}

/// The texts of the first `i` elements, separated by ", ".
pub open spec fn joined_values(s: Seq<AnyValue>, i: int) -> Seq<char>
    decreases s, i,
{
    if i <= 0 || i > s.len() {
        Seq::empty()
    } else if i == 1 {
        any_value_text(s[0])
    } else {
        joined_values(s, i - 1) + ", "@ + any_value_text(s[i - 1])
    }
}

/// The text of one `key:value` pair.
pub open spec fn pair_text(kv: KeyValue) -> Seq<char>
    decreases kv,
{
    kv.key@ + seq![':'] + match kv.value {
        Some(av) => any_value_text(av),
        None => Seq::empty(),
    }
}

/// The `key:value` texts of the first `i` pairs, separated by ", ".
pub open spec fn joined_pairs(s: Seq<KeyValue>, i: int) -> Seq<char>
    decreases s, i,
{
    if i <= 0 || i > s.len() {
        Seq::empty()
    } else if i == 1 {
        pair_text(s[0])
    } else {
        joined_pairs(s, i - 1) + ", "@ + pair_text(s[i - 1])
    }
}

fn bool_str(b: bool) -> (r: &'static str)
    ensures
        r@ == (if b {
            "true"@
        } else {
            "false"@
        }),
{
    if b {
        "true"
    } else {
        "false"
    }
}

#[verifier::loop_isolation(false)]
fn coerce_any(v: &AnyValue) -> (r: String)
    ensures
        r@ == any_value_text(*v),
    decreases v,
{
    match v {
        AnyValue::StringValue(s) => s.clone(),
        AnyValue::BoolValue(b) => String::from_str(bool_str(*b)),
        AnyValue::IntValue(i) => crate::codec::i64_to_dec(*i),
        AnyValue::DoubleValue(s) => s.clone(),
        AnyValue::ArrayValue(arr) => {
            let mut r = String::from_str("[");
            proof {
                assert(r@ =~= "["@ + joined_values(arr.values@, 0));
            }
            let mut i: usize = 0;
            while i < arr.values.len()
                invariant
                    i <= arr.values.len(),
                    r@ == "["@ + joined_values(arr.values@, i as int),
                decreases arr.values.len() - i,
            {
                if i > 0 {
                    r.append(", ");
                }
                proof {
                    assert(decreases_to!(*v => *arr));
                    assert(decreases_to!(*arr => arr.values));
                    assert(decreases_to!(arr.values => arr.values@));
                    assert(decreases_to!(arr.values@ => arr.values@[i as int]));
                    assert(decreases_to!(*v => arr.values@[i as int]));
                }
                let t = coerce_any(&arr.values[i]);
                r.append(t.as_str());
                proof {
                    reveal_strlit("[");
                    assert(r@ =~= "["@ + joined_values(arr.values@, i + 1));
                }
                i = i + 1;
            }
            r.append("]");
            proof {
                reveal_strlit("[");
                reveal_strlit("]");
                assert(r@ =~= any_value_text(*v));
            }
            r
        },
        AnyValue::KvlistValue(kvs) => {
            let mut r = String::from_str("{");
            proof {
                assert(r@ =~= "{"@ + joined_pairs(kvs.values@, 0));
            }
            let mut i: usize = 0;
            while i < kvs.values.len()
                invariant
                    i <= kvs.values.len(),
                    r@ == "{"@ + joined_pairs(kvs.values@, i as int),
                decreases kvs.values.len() - i,
            {
                if i > 0 {
                    r.append(", ");
                }
                r.append(kvs.values[i].key.as_str());
                r.append(":");
                proof {
                    assert(decreases_to!(*v => *kvs));
                    assert(decreases_to!(*kvs => kvs.values));
                    assert(decreases_to!(kvs.values => kvs.values@));
                    assert(decreases_to!(kvs.values@ => kvs.values@[i as int]));
                    assert(decreases_to!(kvs.values@[i as int] => kvs.values@[i as int].value));
                    assert(decreases_to!(*v => kvs.values@[i as int].value));
                }
                let t = any_value_to_string(&kvs.values[i].value);
                r.append(t.as_str());
                proof {
                    reveal_strlit(":");
                    reveal_strlit("{");
                    assert(t@ == opt_value_text(kvs.values@[i as int].value));
                    assert(pair_text(kvs.values@[i as int]) =~= kvs.values@[i as int].key@
                        + seq![':'] + opt_value_text(kvs.values@[i as int].value));
                    if i == 0 {
                        assert(joined_pairs(kvs.values@, 1) == pair_text(kvs.values@[0]));
                    } else {
                        assert(joined_pairs(kvs.values@, i + 1) == joined_pairs(
                            kvs.values@,
                            i as int,
                        ) + ", "@ + pair_text(kvs.values@[i as int]));
                    }
                    assert(r@ =~= "{"@ + joined_pairs(kvs.values@, i + 1));
                }
                i = i + 1;
            }
            r.append("}");
            proof {
                reveal_strlit("{");
                reveal_strlit("}");
                assert(r@ =~= any_value_text(*v));
            }
            r
        },
        AnyValue::BytesValue(b) => crate::codec::hex_encode(b),
    }
}

/// Converts one optional union value into its storable display text.
pub fn any_value_to_string(value: &Option<AnyValue>) -> (r: String)
    ensures
        r@ == opt_value_text(*value),
    decreases value,
{
    match value {
        Some(av) => coerce_any(av),
        None => String::new(),
    }
}

impl Span {
    /// The span's attributes as `(key, display text)` pairs, one per
    /// source entry, duplicates preserved in order.
    pub fn attributes_map(&self) -> (r: Vec<(String, String)>)
        ensures
            r@.len() == self.attributes@.len(),
            forall|i: int|
                0 <= i < r@.len() ==> r@[i].0@ == self.attributes@[i].key@ && r@[i].1@
                    == opt_value_text(self.attributes@[i].value),
    {
        attributes_pairs(&self.attributes)
    }
}

impl LogRecord {
    /// The record's attributes as `(key, display text)` pairs, one per
    /// source entry, duplicates preserved in order.
    pub fn attributes_map(&self) -> (r: Vec<(String, String)>)
        ensures
            r@.len() == self.attributes@.len(),
            forall|i: int|
                0 <= i < r@.len() ==> r@[i].0@ == self.attributes@[i].key@ && r@[i].1@
                    == opt_value_text(self.attributes@[i].value),
    {
        attributes_pairs(&self.attributes)
    }

    /// The record body's display text, absent when the body is absent.
    pub fn body_string(&self) -> (r: Option<String>)
        ensures
            match r {
                Some(t) => self.body is Some && t@ == any_value_text(self.body->0),
                None => self.body is None,
            },
    {
        match &self.body {
            Some(b) => Some(coerce_any(b)),
            None => None,
        }
    }
}

fn attributes_pairs(attrs: &Vec<KeyValue>) -> (r: Vec<(String, String)>)
    ensures
        r@.len() == attrs@.len(),
        forall|i: int|
            0 <= i < r@.len() ==> r@[i].0@ == attrs@[i].key@ && r@[i].1@ == opt_value_text(
                attrs@[i].value,
            ),
{
    let mut r: Vec<(String, String)> = Vec::new();
    let mut i: usize = 0;
    while i < attrs.len()
        invariant
            i <= attrs.len(),
            r@.len() == i,
            forall|j: int|
                0 <= j < i ==> r@[j].0@ == attrs@[j].key@ && r@[j].1@ == opt_value_text(
                    attrs@[j].value,
                ),
        decreases attrs.len() - i,
    {
        let key = attrs[i].key.clone();
        let value = any_value_to_string(&attrs[i].value);
        r.push((key, value));
        i = i + 1;
    }
    r
}

} // verus!

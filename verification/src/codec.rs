//! Between documents and the model: the entity decoders the loaders use and
//! the document builders the writer uses.
//!
//! Decoders follow the tolerance rules of the load path: the general
//! information and the record lists are decoded strictly (any ill-typed
//! field refuses the whole document), while a board manifest never fails —
//! absent or ill-typed manifest fields fall back to their documented
//! defaults.

use vstd::prelude::*;
use vstd::string::*;
use crate::json::{dec_str, jentries_of, jval_of, jvals_of, u64_string, JVal, JsonValue};
use crate::json::{lemma_jentries_of, lemma_jvals_of};
use crate::model::{GeneralInfo, GeneralInfoV};
use crate::text::str_eq;

verus! {

/// The value under the first entry of `es` that carries the key `k`.
pub open spec fn jobj_get(es: Seq<(Seq<char>, JVal)>, k: Seq<char>) -> Option<JVal>
    decreases es.len(),
{
    if es.len() == 0 {
        None
    } else if es[0].0 == k {
        Some(es[0].1)
    } else {
        jobj_get(es.drop_first(), k)
    }
}

/// Looks a key up among an object's entries; first match wins.
pub fn obj_get<'a>(es: &'a Vec<(String, JsonValue)>, k: &str) -> (r: Option<&'a JsonValue>)
    ensures
        match r {
            Some(v) => jobj_get(jentries_of(es@), k@) == Some(v.deep_view()),
            None => jobj_get(jentries_of(es@), k@) is None,
        },
{
    let ghost js: Seq<(Seq<char>, JVal)> = jentries_of(es@);
    proof {
        lemma_jentries_of(es@);
        assert(js.skip(0) =~= js);
    }
    let mut i: usize = 0;
    while i < es.len()
        invariant
            i <= es.len(),
            js == jentries_of(es@),
            js.len() == es@.len(),
            forall|n: int| 0 <= n < es@.len() ==> js[n] == ((#[trigger] es@[n]).0@,
                jval_of(es@[n].1)),
            jobj_get(js, k@) == jobj_get(js.skip(i as int), k@),
        decreases es.len() - i,
    {
        proof {
            assert(js.skip(i as int)[0] == js[i as int]);
            assert(js.skip(i as int).drop_first() =~= js.skip(i + 1));
        }
        if str_eq(es[i].0.as_str(), k) {
            return Some(&es[i].1);
        }
        i = i + 1;
    }
    proof {
        assert(js.skip(es@.len() as int) =~= Seq::<(Seq<char>, JVal)>::empty());
    }
    None
}

/// Strict decode of object entries whose values must all be strings.
pub open spec fn dec_str_entries(es: Seq<(Seq<char>, JVal)>) -> Option<
    Seq<(Seq<char>, Seq<char>)>,
>
    decreases es.len(),
{
    if es.len() == 0 {
        Some(Seq::empty())
    } else {
        match (dec_str_entries(es.drop_last()), es.last().1) {
            (Some(r), JVal::Str(s)) => Some(r.push((es.last().0, s))),
            _ => None,
        }
    }
}

/// Strict decode of object entries whose values must all be integers that
/// fit a `u16`.
pub open spec fn dec_u16_entries(es: Seq<(Seq<char>, JVal)>) -> Option<Seq<(Seq<char>, u16)>>
    decreases es.len(),
{
    if es.len() == 0 {
        Some(Seq::empty())
    } else {
        match (dec_u16_entries(es.drop_last()), es.last().1) {
            (Some(r), JVal::UInt(n)) => if n <= u16::MAX as u64 {
                Some(r.push((es.last().0, n as u16)))
            } else {
                None
            },
            _ => None,
        }
    }
}

/// Strict decode of object entries whose values must all be integers that
/// fit a `u32`.
pub open spec fn dec_u32_entries(es: Seq<(Seq<char>, JVal)>) -> Option<Seq<(Seq<char>, u32)>>
    decreases es.len(),
{
    if es.len() == 0 {
        Some(Seq::empty())
    } else {
        match (dec_u32_entries(es.drop_last()), es.last().1) {
            (Some(r), JVal::UInt(n)) => if n <= u32::MAX as u64 {
                Some(r.push((es.last().0, n as u32)))
            } else {
                None
            },
            _ => None,
        }
    }
}

/// Strict decode of a document that must be an object of strings.
pub open spec fn dec_str_map(v: JVal) -> Option<Seq<(Seq<char>, Seq<char>)>> {
    match v {
        JVal::Obj(es) => dec_str_entries(es),
        _ => None,
    }
}

/// Strict decode of a document that must be an object of `u16` values.
pub open spec fn dec_u16_map(v: JVal) -> Option<Seq<(Seq<char>, u16)>> {
    match v {
        JVal::Obj(es) => dec_u16_entries(es),
        _ => None,
    }
}

/// Strict decode of a document that must be an object of `u32` values.
pub open spec fn dec_u32_map(v: JVal) -> Option<Seq<(Seq<char>, u32)>> {
    match v {
        JVal::Obj(es) => dec_u32_entries(es),
        _ => None,
    }
}

/// Decodes an object of strings; `None` where the document is no such
/// object.
pub fn decode_str_map(v: &JsonValue) -> (r: Option<Vec<(String, String)>>)
    ensures
        match r {
            Some(m) => dec_str_map(v.deep_view()) == Some(m.deep_view()),
            None => dec_str_map(v.deep_view()) is None,
        },
{
    match v {
        JsonValue::Obj(es) => {
            let ghost js: Seq<(Seq<char>, JVal)> = jentries_of(es@);
            proof {
                lemma_jentries_of(es@);
            }
            let mut out: Vec<(String, String)> = Vec::new();
            let mut i: usize = 0;
            while i < es.len()
                invariant
                    v.deep_view() == JVal::Obj(js),
                    i <= es.len(),
                    js == jentries_of(es@),
                    js.len() == es@.len(),
                    forall|n: int| 0 <= n < es@.len() ==> js[n] == ((#[trigger] es@[n]).0@,
                        jval_of(es@[n].1)),
                    dec_str_entries(js.take(i as int)) == Some(out.deep_view()),
                decreases es.len() - i,
            {
                proof {
                    assert(js.take(i + 1).drop_last() =~= js.take(i as int));
                    assert(js.take(i + 1).last() == js[i as int]);
                }
                match &es[i].1 {
                    JsonValue::Str(s) => {
                        out.push((es[i].0.clone(), s.clone()));
                    },
                    _ => {
                        proof {
                            lemma_dec_str_entries_none(js, i as int);
                        }
                        return None;
                    },
                }
                i = i + 1;
            }
            proof {
                assert(js.take(es@.len() as int) =~= js);
            }
            Some(out)
        },
        _ => None,
    }
}

/// Entry lists with an ill-typed value at some position never decode.
proof fn lemma_dec_str_entries_none(es: Seq<(Seq<char>, JVal)>, i: int)
    requires
        0 <= i < es.len(),
        !(es[i].1 is Str),
    ensures
        dec_str_entries(es) is None,
    decreases es.len(),
{
    if es.len() > 0 {
        if i < es.len() - 1 {
            assert(es.drop_last()[i] == es[i]);
            lemma_dec_str_entries_none(es.drop_last(), i);
        }
    }
}

/// Entry lists with a value at some position that is no `u16` never decode.
proof fn lemma_dec_u16_entries_none(es: Seq<(Seq<char>, JVal)>, i: int)
    requires
        0 <= i < es.len(),
        match es[i].1 {
            JVal::UInt(n) => n > u16::MAX as u64,
            _ => true,
        },
    ensures
        dec_u16_entries(es) is None,
    decreases es.len(),
{
    if es.len() > 0 {
        if i < es.len() - 1 {
            assert(es.drop_last()[i] == es[i]);
            lemma_dec_u16_entries_none(es.drop_last(), i);
        }
    }
}

/// Entry lists with a value at some position that is no `u32` never decode.
proof fn lemma_dec_u32_entries_none(es: Seq<(Seq<char>, JVal)>, i: int)
    requires
        0 <= i < es.len(),
        match es[i].1 {
            JVal::UInt(n) => n > u32::MAX as u64,
            _ => true,
        },
    ensures
        dec_u32_entries(es) is None,
    decreases es.len(),
{
    if es.len() > 0 {
        if i < es.len() - 1 {
            assert(es.drop_last()[i] == es[i]);
            lemma_dec_u32_entries_none(es.drop_last(), i);
        }
    }
}

/// Decodes an object of `u16` values; `None` where the document is no such
/// object.
pub fn decode_u16_map(v: &JsonValue) -> (r: Option<Vec<(String, u16)>>)
    ensures
        match r {
            Some(m) => dec_u16_map(v.deep_view()) == Some(m.deep_view()),
            None => dec_u16_map(v.deep_view()) is None,
        },
{
    match v {
        JsonValue::Obj(es) => {
            let ghost js: Seq<(Seq<char>, JVal)> = jentries_of(es@);
            proof {
                lemma_jentries_of(es@);
            }
            let mut out: Vec<(String, u16)> = Vec::new();
            let mut i: usize = 0;
            while i < es.len()
                invariant
                    v.deep_view() == JVal::Obj(js),
                    i <= es.len(),
                    js == jentries_of(es@),
                    js.len() == es@.len(),
                    forall|n: int| 0 <= n < es@.len() ==> js[n] == ((#[trigger] es@[n]).0@,
                        jval_of(es@[n].1)),
                    dec_u16_entries(js.take(i as int)) == Some(out.deep_view()),
                decreases es.len() - i,
            {
                proof {
                    assert(js.take(i + 1).drop_last() =~= js.take(i as int));
                    assert(js.take(i + 1).last() == js[i as int]);
                }
                match &es[i].1 {
                    JsonValue::UInt(n) => {
                        if *n <= u16::MAX as u64 {
                            out.push((es[i].0.clone(), *n as u16));
                        } else {
                            proof {
                                lemma_dec_u16_entries_none(js, i as int);
                            }
                            return None;
                        }
                    },
                    _ => {
                        proof {
                            lemma_dec_u16_entries_none(js, i as int);
                        }
                        return None;
                    },
                }
                i = i + 1;
            }
            proof {
                assert(js.take(es@.len() as int) =~= js);
            }
            Some(out)
        },
        _ => None,
    }
}

/// Decodes an object of `u32` values; `None` where the document is no such
/// object.
pub fn decode_u32_map(v: &JsonValue) -> (r: Option<Vec<(String, u32)>>)
    ensures
        match r {
            Some(m) => dec_u32_map(v.deep_view()) == Some(m.deep_view()),
            None => dec_u32_map(v.deep_view()) is None,
        },
{
    match v {
        JsonValue::Obj(es) => {
            let ghost js: Seq<(Seq<char>, JVal)> = jentries_of(es@);
            proof {
                lemma_jentries_of(es@);
            }
            let mut out: Vec<(String, u32)> = Vec::new();
            let mut i: usize = 0;
            while i < es.len()
                invariant
                    v.deep_view() == JVal::Obj(js),
                    i <= es.len(),
                    js == jentries_of(es@),
                    js.len() == es@.len(),
                    forall|n: int| 0 <= n < es@.len() ==> js[n] == ((#[trigger] es@[n]).0@,
                        jval_of(es@[n].1)),
                    dec_u32_entries(js.take(i as int)) == Some(out.deep_view()),
                decreases es.len() - i,
            {
                proof {
                    assert(js.take(i + 1).drop_last() =~= js.take(i as int));
                    assert(js.take(i + 1).last() == js[i as int]);
                }
                match &es[i].1 {
                    JsonValue::UInt(n) => {
                        if *n <= u32::MAX as u64 {
                            out.push((es[i].0.clone(), *n as u32));
                        } else {
                            proof {
                                lemma_dec_u32_entries_none(js, i as int);
                            }
                            return None;
                        }
                    },
                    _ => {
                        proof {
                            lemma_dec_u32_entries_none(js, i as int);
                        }
                        return None;
                    },
                }
                i = i + 1;
            }
            proof {
                assert(js.take(es@.len() as int) =~= js);
            }
            Some(out)
        },
        _ => None,
    }
}

/// Strict decode of the mandatory general-information document: an object
/// whose `ports`, `addresses`, `units` and `message_ids` entries all hold
/// maps of the right value type.
pub open spec fn dec_general(v: JVal) -> Option<GeneralInfoV> {
    match v {
        JVal::Obj(es) => {
            match (
                jobj_get(es, "ports"@),
                jobj_get(es, "addresses"@),
                jobj_get(es, "units"@),
                jobj_get(es, "message_ids"@),
            ) {
                (Some(p), Some(a), Some(u), Some(m)) => {
                    match (dec_u16_map(p), dec_str_map(a), dec_str_map(u), dec_u32_map(m)) {
                        (Some(ports), Some(addresses), Some(units), Some(message_ids)) => Some(
                            GeneralInfoV { ports, addresses, units, message_ids },
                        ),
                        _ => None,
                    }
                },
                _ => None,
            }
        },
        _ => None,
    }
}

/// Decodes the general-information document; `None` where any of its four
/// mandatory maps is absent or ill-typed.
pub fn decode_general(v: &JsonValue) -> (r: Option<GeneralInfo>)
    ensures
        match r {
            Some(g) => dec_general(v.deep_view()) == Some(g.deep_view()),
            None => dec_general(v.deep_view()) is None,
        },
{
    match v {
        JsonValue::Obj(es) => {
            let p = match obj_get(es, "ports") {
                Some(p) => p,
                None => { return None },
            };
            let a = match obj_get(es, "addresses") {
                Some(a) => a,
                None => { return None },
            };
            let u = match obj_get(es, "units") {
                Some(u) => u,
                None => { return None },
            };
            let m = match obj_get(es, "message_ids") {
                Some(m) => m,
                None => { return None },
            };
            let ports = match decode_u16_map(p) {
                Some(x) => x,
                None => { return None },
            };
            let addresses = match decode_str_map(a) {
                Some(x) => x,
                None => { return None },
            };
            let units = match decode_str_map(u) {
                Some(x) => x,
                None => { return None },
            };
            let message_ids = match decode_u32_map(m) {
                Some(x) => x,
                None => { return None },
            };
            Some(GeneralInfo { ports, addresses, units, message_ids })
        },
        _ => None,
    }
}

} // verus!

use crate::model::{Measurement, MeasurementV, Packet, PacketV};

verus! {

/// The number token a range endpoint decodes to: integer values print as
/// plain decimal, every other number keeps its literal token.
pub open spec fn num_token(v: JVal) -> Option<Seq<char>> {
    match v {
        JVal::UInt(n) => Some(dec_str(n as nat)),
        JVal::NumText(s) => Some(s),
        _ => None,
    }
}

/// An optional string field: absent or null is `None`; a string is kept;
/// anything else refuses the record.
pub open spec fn dec_opt_str(o: Option<JVal>) -> Option<Option<Seq<char>>> {
    match o {
        None => Some(None),
        Some(JVal::Null) => Some(None),
        Some(JVal::Str(s)) => Some(Some(s)),
        _ => None,
    }
}

/// Strict decode of a list whose elements must all be strings.
pub open spec fn dec_str_list(es: Seq<JVal>) -> Option<Seq<Seq<char>>>
    decreases es.len(),
{
    if es.len() == 0 {
        Some(Seq::empty())
    } else {
        match (dec_str_list(es.drop_last()), es.last()) {
            (Some(r), JVal::Str(s)) => Some(r.push(s)),
            _ => None,
        }
    }
}

/// An optional string-list field: absent or null is `None`; a list of
/// strings is kept; anything else refuses the record.
pub open spec fn dec_opt_str_list(o: Option<JVal>) -> Option<Option<Seq<Seq<char>>>> {
    match o {
        None => Some(None),
        Some(JVal::Null) => Some(None),
        Some(JVal::Arr(es)) => match dec_str_list(es) {
            Some(l) => Some(Some(l)),
            None => None,
        },
        _ => None,
    }
}

/// An optional two-number range field: absent or null is `None`; a
/// two-element list of numbers is kept as its pair of tokens; anything else
/// refuses the record.
pub open spec fn dec_opt_range(o: Option<JVal>) -> Option<Option<(Seq<char>, Seq<char>)>> {
    match o {
        None => Some(None),
        Some(JVal::Null) => Some(None),
        Some(JVal::Arr(es)) => if es.len() == 2 {
            match (num_token(es[0]), num_token(es[1])) {
                (Some(a), Some(b)) => Some(Some((a, b))),
                _ => None,
            }
        } else {
            None
        },
        _ => None,
    }
}

/// Strict decode of one measurement record: `id`, `name` and `type` must be
/// strings; the optional fields must have their documented shapes.
pub open spec fn dec_measurement(v: JVal) -> Option<MeasurementV> {
    match v {
        JVal::Obj(es) => match (jobj_get(es, "id"@), jobj_get(es, "name"@), jobj_get(es, "type"@)) {
            (Some(JVal::Str(id)), Some(JVal::Str(name)), Some(JVal::Str(ty))) => match (
                dec_opt_str(jobj_get(es, "podUnits"@)),
                dec_opt_str(jobj_get(es, "displayUnits"@)),
                dec_opt_str_list(jobj_get(es, "enumValues"@)),
                dec_opt_range(jobj_get(es, "safeRange"@)),
                dec_opt_range(jobj_get(es, "warningRange"@)),
            ) {
                (Some(pod), Some(disp), Some(ev), Some(sr), Some(wr)) => Some(
                    MeasurementV {
                        id: id,
                        name: name,
                        measurement_type: ty,
                        pod_units: pod,
                        display_units: disp,
                        enum_values: ev,
                        safe_range: sr,
                        warning_range: wr,
                    },
                ),
                _ => None,
            },
            _ => None,
        },
        _ => None,
    }
}

/// Strict decode of a list whose elements must all be measurements.
pub open spec fn dec_measurement_list(es: Seq<JVal>) -> Option<Seq<MeasurementV>>
    decreases es.len(),
{
    if es.len() == 0 {
        Some(Seq::empty())
    } else {
        match (dec_measurement_list(es.drop_last()), dec_measurement(es.last())) {
            (Some(r), Some(m)) => Some(r.push(m)),
            _ => None,
        }
    }
}

/// Strict decode of a measurements file: a list of measurement records.
pub open spec fn dec_measurements_doc(v: JVal) -> Option<Seq<MeasurementV>> {
    match v {
        JVal::Arr(es) => dec_measurement_list(es),
        _ => None,
    }
}

/// Strict decode of one packet record: `type` and `name` must be strings,
/// `variables` a list of strings where present, `id` a `u32` where present.
pub open spec fn dec_packet(v: JVal) -> Option<PacketV> {
    match v {
        JVal::Obj(es) => match (jobj_get(es, "type"@), jobj_get(es, "name"@)) {
            (Some(JVal::Str(ty)), Some(JVal::Str(name))) => {
                let vars = match jobj_get(es, "variables"@) {
                    None => Some(Seq::<Seq<char>>::empty()),
                    Some(JVal::Arr(es2)) => dec_str_list(es2),
                    _ => None,
                };
                let id = match jobj_get(es, "id"@) {
                    None => Some(None),
                    Some(JVal::Null) => Some(None),
                    Some(JVal::UInt(n)) => if n <= u32::MAX as u64 {
                        Some(Some(n as u32))
                    } else {
                        None
                    },
                    _ => None,
                };
                match (vars, id) {
                    (Some(vs), Some(pid)) => Some(
                        PacketV { packet_type: ty, name: name, variables: vs, id: pid },
                    ),
                    _ => None,
                }
            },
            _ => None,
        },
        _ => None,
    }
}

/// Strict decode of a list whose elements must all be packets.
pub open spec fn dec_packet_list(es: Seq<JVal>) -> Option<Seq<PacketV>>
    decreases es.len(),
{
    if es.len() == 0 {
        Some(Seq::empty())
    } else {
        match (dec_packet_list(es.drop_last()), dec_packet(es.last())) {
            (Some(r), Some(p)) => Some(r.push(p)),
            _ => None,
        }
    }
}

/// Strict decode of a packets file: a list of packet records.
pub open spec fn dec_packets_doc(v: JVal) -> Option<Seq<PacketV>> {
    match v {
        JVal::Arr(es) => dec_packet_list(es),
        _ => None,
    }
}

/// The option the other side of `obj_get` saw, as a document option.
pub open spec fn opt_jval(o: Option<&JsonValue>) -> Option<JVal> {
    match o {
        Some(v) => Some(v.deep_view()),
        None => None,
    }
}

/// Decodes one range endpoint into its number token.
fn token_of(v: &JsonValue) -> (r: Option<String>)
    ensures
        match r {
            Some(s) => num_token(v.deep_view()) == Some(s@),
            None => num_token(v.deep_view()) is None,
        },
{
    match v {
        JsonValue::UInt(n) => Some(u64_string(*n)),
        JsonValue::NumText(s) => Some(s.clone()),
        _ => None,
    }
}

/// Decodes an optional string field.
fn decode_opt_str(o: Option<&JsonValue>) -> (r: Option<Option<String>>)
    ensures
        match r {
            Some(x) => dec_opt_str(opt_jval(o)) == Some(x.deep_view()),
            None => dec_opt_str(opt_jval(o)) is None,
        },
{
    match o {
        None => Some(None),
        Some(JsonValue::Null) => Some(None),
        Some(JsonValue::Str(s)) => Some(Some(s.clone())),
        Some(_) => None,
    }
}

/// Decodes a list whose elements must all be strings.
fn decode_str_list(es: &Vec<JsonValue>) -> (r: Option<Vec<String>>)
    ensures
        match r {
            Some(l) => dec_str_list(jvals_of(es@)) == Some(l.deep_view()),
            None => dec_str_list(jvals_of(es@)) is None,
        },
{
    let ghost js: Seq<JVal> = jvals_of(es@);
    proof {
        lemma_jvals_of(es@);
    }
    let mut out: Vec<String> = Vec::new();
    let mut i: usize = 0;
    while i < es.len()
        invariant
            i <= es.len(),
            js == jvals_of(es@),
            js.len() == es@.len(),
            forall|n: int| 0 <= n < es@.len() ==> js[n] == jval_of(#[trigger] es@[n]),
            dec_str_list(js.take(i as int)) == Some(out.deep_view()),
        decreases es.len() - i,
    {
        proof {
            assert(js.take(i + 1).drop_last() =~= js.take(i as int));
            assert(js.take(i + 1).last() == js[i as int]);
        }
        match &es[i] {
            JsonValue::Str(s) => {
                out.push(s.clone());
            },
            _ => {
                proof {
                    lemma_dec_str_list_none(js, i as int);
                }
                return None;
            },
        }
        i = i + 1;
    }
    proof {
        assert(js.take(es@.len() as int) =~= js);
    }
    Some(out)
}

/// Lists with a non-string element at some position never decode.
proof fn lemma_dec_str_list_none(es: Seq<JVal>, i: int)
    requires
        0 <= i < es.len(),
        !(es[i] is Str),
    ensures
        dec_str_list(es) is None,
    decreases es.len(),
{
    if es.len() > 0 {
        if i < es.len() - 1 {
            assert(es.drop_last()[i] == es[i]);
            lemma_dec_str_list_none(es.drop_last(), i);
        }
    }
}

/// Decodes an optional string-list field.
fn decode_opt_str_list(o: Option<&JsonValue>) -> (r: Option<Option<Vec<String>>>)
    ensures
        match r {
            Some(x) => dec_opt_str_list(opt_jval(o)) == Some(x.deep_view()),
            None => dec_opt_str_list(opt_jval(o)) is None,
        },
{
    match o {
        None => Some(None),
        Some(JsonValue::Null) => Some(None),
        Some(JsonValue::Arr(es)) => match decode_str_list(es) {
            Some(l) => Some(Some(l)),
            None => None,
        },
        Some(_) => None,
    }
}

/// Decodes an optional two-number range field.
fn decode_opt_range(o: Option<&JsonValue>) -> (r: Option<Option<(String, String)>>)
    ensures
        match r {
            Some(x) => dec_opt_range(opt_jval(o)) == Some(x.deep_view()),
            None => dec_opt_range(opt_jval(o)) is None,
        },
{
    match o {
        None => Some(None),
        Some(JsonValue::Null) => Some(None),
        Some(JsonValue::Arr(es)) => {
            if es.len() != 2 {
                proof {
                    lemma_jvals_of(es@);
                }
                return None;
            }
            proof {
                lemma_jvals_of(es@);
            }
            let a = match token_of(&es[0]) {
                Some(a) => a,
                None => { return None },
            };
            let b = match token_of(&es[1]) {
                Some(b) => b,
                None => { return None },
            };
            Some(Some((a, b)))
        },
        Some(_) => None,
    }
}

} // verus!

verus! {

/// Decodes one measurement record; `None` where a mandatory field is
/// absent or any field is ill-typed.
pub fn decode_measurement(v: &JsonValue) -> (r: Option<Measurement>)
    ensures
        match r {
            Some(m) => dec_measurement(v.deep_view()) == Some(m.deep_view()),
            None => dec_measurement(v.deep_view()) is None,
        },
{
    match v {
        JsonValue::Obj(es) => {
            let idv = match obj_get(es, "id") {
                Some(x) => x,
                None => { return None },
            };
            let id = match idv {
                JsonValue::Str(s) => s.clone(),
                _ => { return None },
            };
            let namev = match obj_get(es, "name") {
                Some(x) => x,
                None => { return None },
            };
            let name = match namev {
                JsonValue::Str(s) => s.clone(),
                _ => { return None },
            };
            let tyv = match obj_get(es, "type") {
                Some(x) => x,
                None => { return None },
            };
            let ty = match tyv {
                JsonValue::Str(s) => s.clone(),
                _ => { return None },
            };
            let pod = match decode_opt_str(obj_get(es, "podUnits")) {
                Some(x) => x,
                None => { return None },
            };
            let disp = match decode_opt_str(obj_get(es, "displayUnits")) {
                Some(x) => x,
                None => { return None },
            };
            let ev = match decode_opt_str_list(obj_get(es, "enumValues")) {
                Some(x) => x,
                None => { return None },
            };
            let sr = match decode_opt_range(obj_get(es, "safeRange")) {
                Some(x) => x,
                None => { return None },
            };
            let wr = match decode_opt_range(obj_get(es, "warningRange")) {
                Some(x) => x,
                None => { return None },
            };
            Some(
                Measurement {
                    id,
                    name,
                    measurement_type: ty,
                    pod_units: pod,
                    display_units: disp,
                    enum_values: ev,
                    safe_range: sr,
                    warning_range: wr,
                },
            )
        },
        _ => None,
    }
}

/// Record lists with an invalid record at some position never decode.
proof fn lemma_dec_measurement_list_none(es: Seq<JVal>, i: int)
    requires
        0 <= i < es.len(),
        dec_measurement(es[i]) is None,
    ensures
        dec_measurement_list(es) is None,
    decreases es.len(),
{
    if es.len() > 0 {
        if i < es.len() - 1 {
            assert(es.drop_last()[i] == es[i]);
            lemma_dec_measurement_list_none(es.drop_last(), i);
        }
    }
}

/// Decodes a measurements file; `None` where the document is not a list of
/// valid measurement records.
pub fn decode_measurements(v: &JsonValue) -> (r: Option<Vec<Measurement>>)
    ensures
        match r {
            Some(ms) => dec_measurements_doc(v.deep_view()) == Some(ms.deep_view()),
            None => dec_measurements_doc(v.deep_view()) is None,
        },
{
    match v {
        JsonValue::Arr(es) => {
            let ghost js: Seq<JVal> = jvals_of(es@);
            proof {
                lemma_jvals_of(es@);
            }
            let mut out: Vec<Measurement> = Vec::new();
            let mut i: usize = 0;
            while i < es.len()
                invariant
                    v.deep_view() == JVal::Arr(js),
                    i <= es.len(),
                    js == jvals_of(es@),
                    js.len() == es@.len(),
                    forall|n: int| 0 <= n < es@.len() ==> js[n] == jval_of(#[trigger] es@[n]),
                    dec_measurement_list(js.take(i as int)) == Some(out.deep_view()),
                decreases es.len() - i,
            {
                proof {
                    assert(js.take(i + 1).drop_last() =~= js.take(i as int));
                    assert(js.take(i + 1).last() == js[i as int]);
                }
                match decode_measurement(&es[i]) {
                    Some(m) => {
                        out.push(m);
                    },
                    None => {
                        proof {
                            lemma_dec_measurement_list_none(js, i as int);
                        }
                        return None;
                    },
                }
                i = i + 1;
            }
            proof {
                assert(js.take(es@.len() as int) =~= js);
            }
            Some(out)
        },
        _ => None,
    }
}

/// Decodes one packet record; `None` where a mandatory field is absent or
/// any field is ill-typed.
pub fn decode_packet(v: &JsonValue) -> (r: Option<Packet>)
    ensures
        match r {
            Some(p) => dec_packet(v.deep_view()) == Some(p.deep_view()),
            None => dec_packet(v.deep_view()) is None,
        },
{
    match v {
        JsonValue::Obj(es) => {
            let tyv = match obj_get(es, "type") {
                Some(x) => x,
                None => { return None },
            };
            let ty = match tyv {
                JsonValue::Str(s) => s.clone(),
                _ => { return None },
            };
            let namev = match obj_get(es, "name") {
                Some(x) => x,
                None => { return None },
            };
            let name = match namev {
                JsonValue::Str(s) => s.clone(),
                _ => { return None },
            };
            let vars = match obj_get(es, "variables") {
                None => {
                    let v0: Vec<String> = Vec::new();
                    proof {
                        assert(v0.deep_view() =~= Seq::<Seq<char>>::empty());
                    }
                    v0
                },
                Some(vv) => match vv {
                    JsonValue::Arr(es2) => match decode_str_list(es2) {
                        Some(l) => l,
                        None => { return None },
                    },
                    _ => { return None },
                },
            };
            let id = match obj_get(es, "id") {
                None => None,
                Some(iv) => match iv {
                    JsonValue::Null => None,
                    JsonValue::UInt(n) => {
                        if *n <= u32::MAX as u64 {
                            Some(*n as u32)
                        } else {
                            return None;
                        }
                    },
                    _ => { return None },
                },
            };
            Some(Packet { packet_type: ty, name, variables: vars, id })
        },
        _ => None,
    }
}

/// Record lists with an invalid record at some position never decode.
proof fn lemma_dec_packet_list_none(es: Seq<JVal>, i: int)
    requires
        0 <= i < es.len(),
        dec_packet(es[i]) is None,
    ensures
        dec_packet_list(es) is None,
    decreases es.len(),
{
    if es.len() > 0 {
        if i < es.len() - 1 {
            assert(es.drop_last()[i] == es[i]);
            lemma_dec_packet_list_none(es.drop_last(), i);
        }
    }
}

/// Decodes a packets file; `None` where the document is not a list of
/// valid packet records.
pub fn decode_packets(v: &JsonValue) -> (r: Option<Vec<Packet>>)
    ensures
        match r {
            Some(ps) => dec_packets_doc(v.deep_view()) == Some(ps.deep_view()),
            None => dec_packets_doc(v.deep_view()) is None,
        },
{
    match v {
        JsonValue::Arr(es) => {
            let ghost js: Seq<JVal> = jvals_of(es@);
            proof {
                lemma_jvals_of(es@);
            }
            let mut out: Vec<Packet> = Vec::new();
            let mut i: usize = 0;
            while i < es.len()
                invariant
                    v.deep_view() == JVal::Arr(js),
                    i <= es.len(),
                    js == jvals_of(es@),
                    js.len() == es@.len(),
                    forall|n: int| 0 <= n < es@.len() ==> js[n] == jval_of(#[trigger] es@[n]),
                    dec_packet_list(js.take(i as int)) == Some(out.deep_view()),
                decreases es.len() - i,
            {
                proof {
                    assert(js.take(i + 1).drop_last() =~= js.take(i as int));
                    assert(js.take(i + 1).last() == js[i as int]);
                }
                match decode_packet(&es[i]) {
                    Some(p) => {
                        out.push(p);
                    },
                    None => {
                        proof {
                            lemma_dec_packet_list_none(js, i as int);
                        }
                        return None;
                    },
                }
                i = i + 1;
            }
            proof {
                assert(js.take(es@.len() as int) =~= js);
            }
            Some(out)
        },
        _ => None,
    }
}

} // verus!

use crate::json::{jdepth, jdepth_entries, jdepth_seq, lemma_jdepth_entries_le, lemma_jdepth_seq_le};
use crate::model::{Board, BoardEntry, BoardEntryV, BoardV};
use crate::text::{measurements_file, spec_manifest_path, spec_measurements_file, manifest_path};

verus! {

/// The entries of an encoded `u16` map, in the order of the pairs.
pub open spec fn enc_u16_entries(ps: Seq<(Seq<char>, u16)>) -> Seq<(Seq<char>, JVal)>
    decreases ps.len(),
{
    if ps.len() == 0 {
        Seq::empty()
    } else {
        enc_u16_entries(ps.drop_last()).push((ps.last().0, JVal::UInt(ps.last().1 as u64)))
    }
}

/// The entries of an encoded string map, in the order of the pairs.
pub open spec fn enc_str_entries(ps: Seq<(Seq<char>, Seq<char>)>) -> Seq<(Seq<char>, JVal)>
    decreases ps.len(),
{
    if ps.len() == 0 {
        Seq::empty()
    } else {
        enc_str_entries(ps.drop_last()).push((ps.last().0, JVal::Str(ps.last().1)))
    }
}

/// The entries of an encoded `u32` map, in the order of the pairs.
pub open spec fn enc_u32_entries(ps: Seq<(Seq<char>, u32)>) -> Seq<(Seq<char>, JVal)>
    decreases ps.len(),
{
    if ps.len() == 0 {
        Seq::empty()
    } else {
        enc_u32_entries(ps.drop_last()).push((ps.last().0, JVal::UInt(ps.last().1 as u64)))
    }
}

/// The general-information document the writer produces: one object with
/// the four maps, in the fixed field order.
pub open spec fn spec_general_doc(g: GeneralInfoV) -> JVal {
    JVal::Obj(
        seq![
            ("ports"@, JVal::Obj(enc_u16_entries(g.ports))),
            ("addresses"@, JVal::Obj(enc_str_entries(g.addresses))),
            ("units"@, JVal::Obj(enc_str_entries(g.units))),
            ("message_ids"@, JVal::Obj(enc_u32_entries(g.message_ids))),
        ],
    )
}

/// A list of strings as documents.
pub open spec fn enc_strs(ss: Seq<Seq<char>>) -> Seq<JVal>
    decreases ss.len(),
{
    if ss.len() == 0 {
        Seq::empty()
    } else {
        enc_strs(ss.drop_last()).push(JVal::Str(ss.last()))
    }
}

/// The entry an optional string field contributes: nothing where absent.
pub open spec fn opt_str_entry(k: Seq<char>, o: Option<Seq<char>>) -> Seq<(Seq<char>, JVal)> {
    match o {
        None => Seq::empty(),
        Some(s) => seq![(k, JVal::Str(s))],
    }
}

/// The entry an optional string-list field contributes.
pub open spec fn opt_list_entry(k: Seq<char>, o: Option<Seq<Seq<char>>>) -> Seq<
    (Seq<char>, JVal),
> {
    match o {
        None => Seq::empty(),
        Some(l) => seq![(k, JVal::Arr(enc_strs(l)))],
    }
}

/// The entry an optional range field contributes: its two number tokens.
pub open spec fn opt_range_entry(k: Seq<char>, o: Option<(Seq<char>, Seq<char>)>) -> Seq<
    (Seq<char>, JVal),
> {
    match o {
        None => Seq::empty(),
        Some((a, b)) => seq![(k, JVal::Arr(seq![JVal::NumText(a), JVal::NumText(b)]))],
    }
}

/// One measurement as a document: the three mandatory fields, then each
/// optional field that is present, in the fixed field order.
pub open spec fn enc_measurement(m: MeasurementV) -> JVal {
    JVal::Obj(
        seq![
            ("id"@, JVal::Str(m.id)),
            ("name"@, JVal::Str(m.name)),
            ("type"@, JVal::Str(m.measurement_type)),
        ] + opt_str_entry("podUnits"@, m.pod_units) + opt_str_entry(
            "displayUnits"@,
            m.display_units,
        ) + opt_list_entry("enumValues"@, m.enum_values) + opt_range_entry(
            "safeRange"@,
            m.safe_range,
        ) + opt_range_entry("warningRange"@, m.warning_range),
    )
}

/// A list of measurements as documents.
pub open spec fn enc_measurements(ms: Seq<MeasurementV>) -> Seq<JVal>
    decreases ms.len(),
{
    if ms.len() == 0 {
        Seq::empty()
    } else {
        enc_measurements(ms.drop_last()).push(enc_measurement(ms.last()))
    }
}

/// The measurements file the writer produces for one board.
pub open spec fn spec_measurements_doc(ms: Seq<MeasurementV>) -> JVal {
    JVal::Arr(enc_measurements(ms))
}

/// One packet as a document: type, name, the variable list, and the id
/// where present.
pub open spec fn enc_packet(p: PacketV) -> JVal {
    JVal::Obj(
        seq![
            ("type"@, JVal::Str(p.packet_type)),
            ("name"@, JVal::Str(p.name)),
            ("variables"@, JVal::Arr(enc_strs(p.variables))),
        ] + match p.id {
            None => Seq::empty(),
            Some(n) => seq![("id"@, JVal::UInt(n as u64))],
        },
    )
}

/// A list of packets as documents.
pub open spec fn enc_packets(ps: Seq<PacketV>) -> Seq<JVal>
    decreases ps.len(),
{
    if ps.len() == 0 {
        Seq::empty()
    } else {
        enc_packets(ps.drop_last()).push(enc_packet(ps.last()))
    }
}

/// A packets file as the writer produces it.
pub open spec fn spec_packets_doc(ps: Seq<PacketV>) -> JVal {
    JVal::Arr(enc_packets(ps))
}

/// The manifest the writer regenerates for one board: its identity, a
/// one-element measurements file list, and the fixed two-element packets
/// file list.
pub open spec fn spec_manifest_doc(name: Seq<char>, b: BoardV) -> JVal {
    JVal::Obj(
        seq![
            ("board_id"@, JVal::UInt(b.board_id as u64)),
            ("board_ip"@, JVal::Str(b.board_ip)),
            ("measurements"@, JVal::Arr(seq![JVal::Str(spec_measurements_file(name))])),
            ("packets"@, JVal::Arr(seq![JVal::Str("packets.json"@), JVal::Str("orders.json"@)])),
        ],
    )
}

/// The entries of the board index document: each board's name mapped to
/// its canonical manifest path, in board order.
pub open spec fn enc_index_entries(bs: Seq<BoardEntryV>) -> Seq<(Seq<char>, JVal)>
    decreases bs.len(),
{
    if bs.len() == 0 {
        Seq::empty()
    } else {
        enc_index_entries(bs.drop_last()).push(
            (bs.last().name, JVal::Str(spec_manifest_path(bs.last().name))),
        )
    }
}

/// The board index document the writer produces.
pub open spec fn spec_index_doc(bs: Seq<BoardEntryV>) -> JVal {
    JVal::Obj(enc_index_entries(bs))
}

} // verus!

verus! {

/// Encoded string lists hold only leaves.
pub proof fn lemma_enc_strs_flat(ss: Seq<Seq<char>>)
    ensures
        jdepth_seq(enc_strs(ss)) == 0,
    decreases ss.len(),
{
    if ss.len() > 0 {
        lemma_enc_strs_flat(ss.drop_last());
        assert(enc_strs(ss) == enc_strs(ss.drop_last()).push(JVal::Str(ss.last())));
        assert(enc_strs(ss).drop_last() =~= enc_strs(ss.drop_last()));
        assert(enc_strs(ss).last() == JVal::Str(ss.last()));
        assert(jdepth(JVal::Str(ss.last())) == 0);
        assert(enc_strs(ss).len() > 0);
        assert(jdepth_seq(enc_strs(ss)) == 0);
    } else {
        assert(enc_strs(ss).len() == 0);
        assert(jdepth_seq(enc_strs(ss)) == 0);
    }
}

/// Encoded map entries hold only leaves.
pub proof fn lemma_enc_map_entries_flat(
    ps16: Seq<(Seq<char>, u16)>,
    pss: Seq<(Seq<char>, Seq<char>)>,
    ps32: Seq<(Seq<char>, u32)>,
)
    ensures
        jdepth_entries(enc_u16_entries(ps16)) == 0,
        jdepth_entries(enc_str_entries(pss)) == 0,
        jdepth_entries(enc_u32_entries(ps32)) == 0,
    decreases ps16.len() + pss.len() + ps32.len(),
{
    reveal_with_fuel(jdepth_entries, 3);
    if ps16.len() > 0 {
        lemma_enc_map_entries_flat(ps16.drop_last(), pss, ps32);
        assert(enc_u16_entries(ps16) == enc_u16_entries(ps16.drop_last()).push(
            (ps16.last().0, JVal::UInt(ps16.last().1 as u64)),
        ));
        assert(enc_u16_entries(ps16).drop_last() =~= enc_u16_entries(ps16.drop_last()));
        assert(enc_u16_entries(ps16).last() == (ps16.last().0, JVal::UInt(ps16.last().1 as u64)));
        assert(jdepth_entries(enc_u16_entries(ps16)) == 0);
    } else if pss.len() > 0 {
        lemma_enc_map_entries_flat(ps16, pss.drop_last(), ps32);
        assert(enc_str_entries(pss) == enc_str_entries(pss.drop_last()).push(
            (pss.last().0, JVal::Str(pss.last().1)),
        ));
        assert(enc_str_entries(pss).drop_last() =~= enc_str_entries(pss.drop_last()));
        assert(enc_str_entries(pss).last() == (pss.last().0, JVal::Str(pss.last().1)));
        assert(jdepth_entries(enc_str_entries(pss)) == 0);
    } else if ps32.len() > 0 {
        lemma_enc_map_entries_flat(ps16, pss, ps32.drop_last());
        assert(enc_u32_entries(ps32) == enc_u32_entries(ps32.drop_last()).push(
            (ps32.last().0, JVal::UInt(ps32.last().1 as u64)),
        ));
        assert(enc_u32_entries(ps32).drop_last() =~= enc_u32_entries(ps32.drop_last()));
        assert(enc_u32_entries(ps32).last() == (ps32.last().0, JVal::UInt(ps32.last().1 as u64)));
        assert(jdepth_entries(enc_u32_entries(ps32)) == 0);
    }
}

/// An encoded measurement nests at most two levels.
pub proof fn lemma_enc_measurement_depth(m: MeasurementV)
    ensures
        jdepth(enc_measurement(m)) <= 2,
{
    let es = seq![
        ("id"@, JVal::Str(m.id)),
        ("name"@, JVal::Str(m.name)),
        ("type"@, JVal::Str(m.measurement_type)),
    ] + opt_str_entry("podUnits"@, m.pod_units) + opt_str_entry("displayUnits"@, m.display_units)
        + opt_list_entry("enumValues"@, m.enum_values) + opt_range_entry("safeRange"@, m.safe_range)
        + opt_range_entry("warningRange"@, m.warning_range);
    assert forall|i: int| 0 <= i < es.len() implies jdepth((#[trigger] es[i]).1) <= 1 by {
        match m.enum_values {
            Some(l) => {
                lemma_enc_strs_flat(l);
            },
            None => {},
        }
        match m.safe_range {
            Some((a, b)) => {
                assert(jdepth_seq(seq![JVal::NumText(a), JVal::NumText(b)]) == 0) by {
                    reveal_with_fuel(jdepth_seq, 4);
                    let s2 = seq![JVal::NumText(a), JVal::NumText(b)];
                    let s1 = seq![JVal::NumText(a)];
                    assert(s2.len() == 2);
                    assert(s2.last() == JVal::NumText(b));
                    assert(s2.drop_last() =~= s1);
                    assert(s1.last() == JVal::NumText(a));
                    assert(s1.drop_last() =~= Seq::<JVal>::empty());
                    assert(jdepth_seq(Seq::<JVal>::empty()) == 0);
                    assert(jdepth_seq(s1) == 0);
                }
            },
            None => {},
        }
        match m.warning_range {
            Some((a, b)) => {
                assert(jdepth_seq(seq![JVal::NumText(a), JVal::NumText(b)]) == 0) by {
                    reveal_with_fuel(jdepth_seq, 4);
                    let s2 = seq![JVal::NumText(a), JVal::NumText(b)];
                    let s1 = seq![JVal::NumText(a)];
                    assert(s2.len() == 2);
                    assert(s2.last() == JVal::NumText(b));
                    assert(s2.drop_last() =~= s1);
                    assert(s1.last() == JVal::NumText(a));
                    assert(s1.drop_last() =~= Seq::<JVal>::empty());
                    assert(jdepth_seq(Seq::<JVal>::empty()) == 0);
                    assert(jdepth_seq(s1) == 0);
                }
            },
            None => {},
        }
    }
    lemma_jdepth_entries_le(es, 1);
}

/// A list of encoded measurements nests at most two levels.
pub proof fn lemma_enc_measurements_depth(ms: Seq<MeasurementV>)
    ensures
        jdepth_seq(enc_measurements(ms)) <= 2,
    decreases ms.len(),
{
    if ms.len() > 0 {
        lemma_enc_measurements_depth(ms.drop_last());
        lemma_enc_measurement_depth(ms.last());
        assert(enc_measurements(ms).drop_last() =~= enc_measurements(ms.drop_last()));
    }
}

/// An encoded packet nests at most two levels.
pub proof fn lemma_enc_packet_depth(p: PacketV)
    ensures
        jdepth(enc_packet(p)) <= 2,
{
    let es = seq![
        ("type"@, JVal::Str(p.packet_type)),
        ("name"@, JVal::Str(p.name)),
        ("variables"@, JVal::Arr(enc_strs(p.variables))),
    ] + match p.id {
        None => Seq::<(Seq<char>, JVal)>::empty(),
        Some(n) => seq![("id"@, JVal::UInt(n as u64))],
    };
    assert forall|i: int| 0 <= i < es.len() implies jdepth((#[trigger] es[i]).1) <= 1 by {
        lemma_enc_strs_flat(p.variables);
    }
    lemma_jdepth_entries_le(es, 1);
}

/// A list of encoded packets nests at most two levels.
pub proof fn lemma_enc_packets_depth(ps: Seq<PacketV>)
    ensures
        jdepth_seq(enc_packets(ps)) <= 2,
    decreases ps.len(),
{
    if ps.len() > 0 {
        lemma_enc_packets_depth(ps.drop_last());
        lemma_enc_packet_depth(ps.last());
        assert(enc_packets(ps).drop_last() =~= enc_packets(ps.drop_last()));
    }
}

/// Index entries hold only leaves.
pub proof fn lemma_enc_index_entries_flat(bs: Seq<BoardEntryV>)
    ensures
        jdepth_entries(enc_index_entries(bs)) == 0,
    decreases bs.len(),
{
    reveal_with_fuel(jdepth_entries, 3);
    if bs.len() > 0 {
        lemma_enc_index_entries_flat(bs.drop_last());
        assert(enc_index_entries(bs) == enc_index_entries(bs.drop_last()).push(
            (bs.last().name, JVal::Str(spec_manifest_path(bs.last().name))),
        ));
        assert(enc_index_entries(bs).drop_last() =~= enc_index_entries(bs.drop_last()));
        assert(enc_index_entries(bs).last() == (
            bs.last().name,
            JVal::Str(spec_manifest_path(bs.last().name)),
        ));
        assert(jdepth_entries(enc_index_entries(bs)) == 0);
    }
}

/// Builds the object entries of a `u16` map document.
fn u16_entries_doc(ps: &Vec<(String, u16)>) -> (r: Vec<(String, JsonValue)>)
    ensures
        jentries_of(r@) == enc_u16_entries(ps.deep_view()),
{
    let ghost dv: Seq<(Seq<char>, u16)> = ps.deep_view();
    let mut out: Vec<(String, JsonValue)> = Vec::new();
    proof {
        assert(jentries_of(out@) =~= enc_u16_entries(dv.take(0)));
    }
    let mut i: usize = 0;
    while i < ps.len()
        invariant
            i <= ps.len(),
            dv == ps.deep_view(),
            dv.len() == ps@.len(),
            jentries_of(out@) == enc_u16_entries(dv.take(i as int)),
        decreases ps.len() - i,
    {
        let ghost out0: Seq<(String, JsonValue)> = out@;
        out.push((ps[i].0.clone(), JsonValue::UInt(ps[i].1 as u64)));
        proof {
            assert(dv[i as int] == (ps@[i as int].0@, ps@[i as int].1));
            assert(out@.drop_last() =~= out0);
            assert(out@.last() == out@[out@.len() - 1]);
            assert(jentries_of(out@) == jentries_of(out0).push(
                (out@.last().0@, jval_of(out@.last().1)),
            ));
            assert(dv.take(i + 1).drop_last() =~= dv.take(i as int));
            assert(dv.take(i + 1).last() == dv[i as int]);
            assert(enc_u16_entries(dv.take(i + 1)) == enc_u16_entries(dv.take(i as int)).push(
                (dv[i as int].0, JVal::UInt(dv[i as int].1 as u64)),
            ));
        }
        i = i + 1;
    }
    proof {
        assert(dv.take(dv.len() as int) =~= dv);
    }
    out
}

/// Builds the object entries of a string map document.
fn str_entries_doc(ps: &Vec<(String, String)>) -> (r: Vec<(String, JsonValue)>)
    ensures
        jentries_of(r@) == enc_str_entries(ps.deep_view()),
{
    let ghost dv: Seq<(Seq<char>, Seq<char>)> = ps.deep_view();
    let mut out: Vec<(String, JsonValue)> = Vec::new();
    proof {
        assert(jentries_of(out@) =~= enc_str_entries(dv.take(0)));
    }
    let mut i: usize = 0;
    while i < ps.len()
        invariant
            i <= ps.len(),
            dv == ps.deep_view(),
            dv.len() == ps@.len(),
            jentries_of(out@) == enc_str_entries(dv.take(i as int)),
        decreases ps.len() - i,
    {
        let ghost out0: Seq<(String, JsonValue)> = out@;
        out.push((ps[i].0.clone(), JsonValue::Str(ps[i].1.clone())));
        proof {
            assert(dv[i as int] == (ps@[i as int].0@, ps@[i as int].1@));
            assert(out@.drop_last() =~= out0);
            assert(out@.last() == out@[out@.len() - 1]);
            assert(jentries_of(out@) == jentries_of(out0).push(
                (out@.last().0@, jval_of(out@.last().1)),
            ));
            assert(dv.take(i + 1).drop_last() =~= dv.take(i as int));
            assert(dv.take(i + 1).last() == dv[i as int]);
            assert(enc_str_entries(dv.take(i + 1)) == enc_str_entries(dv.take(i as int)).push(
                (dv[i as int].0, JVal::Str(dv[i as int].1)),
            ));
        }
        i = i + 1;
    }
    proof {
        assert(dv.take(dv.len() as int) =~= dv);
    }
    out
}

/// Builds the object entries of a `u32` map document.
fn u32_entries_doc(ps: &Vec<(String, u32)>) -> (r: Vec<(String, JsonValue)>)
    ensures
        jentries_of(r@) == enc_u32_entries(ps.deep_view()),
{
    let ghost dv: Seq<(Seq<char>, u32)> = ps.deep_view();
    let mut out: Vec<(String, JsonValue)> = Vec::new();
    proof {
        assert(jentries_of(out@) =~= enc_u32_entries(dv.take(0)));
    }
    let mut i: usize = 0;
    while i < ps.len()
        invariant
            i <= ps.len(),
            dv == ps.deep_view(),
            dv.len() == ps@.len(),
            jentries_of(out@) == enc_u32_entries(dv.take(i as int)),
        decreases ps.len() - i,
    {
        let ghost out0: Seq<(String, JsonValue)> = out@;
        out.push((ps[i].0.clone(), JsonValue::UInt(ps[i].1 as u64)));
        proof {
            assert(dv[i as int] == (ps@[i as int].0@, ps@[i as int].1));
            assert(out@.drop_last() =~= out0);
            assert(out@.last() == out@[out@.len() - 1]);
            assert(jentries_of(out@) == jentries_of(out0).push(
                (out@.last().0@, jval_of(out@.last().1)),
            ));
            assert(dv.take(i + 1).drop_last() =~= dv.take(i as int));
            assert(dv.take(i + 1).last() == dv[i as int]);
            assert(enc_u32_entries(dv.take(i + 1)) == enc_u32_entries(dv.take(i as int)).push(
                (dv[i as int].0, JVal::UInt(dv[i as int].1 as u64)),
            ));
        }
        i = i + 1;
    }
    proof {
        assert(dv.take(dv.len() as int) =~= dv);
    }
    out
}

/// Builds the general-information document.
pub fn general_doc(g: &GeneralInfo) -> (r: JsonValue)
    ensures
        r.deep_view() == spec_general_doc(g.deep_view()),
        jdepth(r.deep_view()) <= 2,
{
    let mut es: Vec<(String, JsonValue)> = Vec::new();
    es.push((String::from_str("ports"), JsonValue::Obj(u16_entries_doc(&g.ports))));
    let ghost es1: Seq<(String, JsonValue)> = es@;
    es.push((String::from_str("addresses"), JsonValue::Obj(str_entries_doc(&g.addresses))));
    let ghost es2: Seq<(String, JsonValue)> = es@;
    es.push((String::from_str("units"), JsonValue::Obj(str_entries_doc(&g.units))));
    let ghost es3: Seq<(String, JsonValue)> = es@;
    es.push((String::from_str("message_ids"), JsonValue::Obj(u32_entries_doc(&g.message_ids))));
    proof {
        reveal_with_fuel(jentries_of, 6);
        assert(es1.drop_last() =~= Seq::<(String, JsonValue)>::empty());
        assert(es2.drop_last() =~= es1);
        assert(es3.drop_last() =~= es2);
        assert(es@.drop_last() =~= es3);
        assert(jentries_of(es@) =~= spec_general_doc(g.deep_view())->Obj_0);
        lemma_enc_map_entries_flat(
            g.deep_view().ports,
            g.deep_view().addresses,
            g.deep_view().message_ids.map_values(|x: (Seq<char>, u32)| x).take(0),
        );
        lemma_enc_map_entries_flat(
            g.deep_view().ports.take(0),
            g.deep_view().units,
            g.deep_view().message_ids,
        );
        lemma_jdepth_entries_le(jentries_of(es@), 1);
    }
    JsonValue::Obj(es)
}

} // verus!


verus! {

/// Builds the document list for a list of strings.
fn strs_doc(ss: &Vec<String>) -> (r: Vec<JsonValue>)
    ensures
        jvals_of(r@) == enc_strs(ss.deep_view()),
{
    let ghost dv: Seq<Seq<char>> = ss.deep_view();
    let mut out: Vec<JsonValue> = Vec::new();
    proof {
        assert(jvals_of(out@) =~= enc_strs(dv.take(0)));
    }
    let mut i: usize = 0;
    while i < ss.len()
        invariant
            i <= ss.len(),
            dv == ss.deep_view(),
            dv.len() == ss@.len(),
            jvals_of(out@) == enc_strs(dv.take(i as int)),
        decreases ss.len() - i,
    {
        let ghost out0: Seq<JsonValue> = out@;
        out.push(JsonValue::Str(ss[i].clone()));
        proof {
            assert(dv[i as int] == ss@[i as int]@);
            assert(out@.drop_last() =~= out0);
            assert(jvals_of(out@) == jvals_of(out0).push(jval_of(out@.last())));
            assert(dv.take(i + 1).drop_last() =~= dv.take(i as int));
            assert(dv.take(i + 1).last() == dv[i as int]);
            assert(enc_strs(dv.take(i + 1)) == enc_strs(dv.take(i as int)).push(
                JVal::Str(dv[i as int]),
            ));
        }
        i = i + 1;
    }
    proof {
        assert(dv.take(dv.len() as int) =~= dv);
    }
    out
}

/// Builds the document for one measurement.
pub fn measurement_doc(m: &Measurement) -> (r: JsonValue)
    ensures
        r.deep_view() == enc_measurement(m.deep_view()),
{
    let ghost dv: MeasurementV = m.deep_view();
    let ghost mand: Seq<(Seq<char>, JVal)> = seq![
        ("id"@, JVal::Str(dv.id)),
        ("name"@, JVal::Str(dv.name)),
        ("type"@, JVal::Str(dv.measurement_type)),
    ];
    let mut es: Vec<(String, JsonValue)> = Vec::new();
    es.push((String::from_str("id"), JsonValue::Str(m.id.clone())));
    let ghost es1: Seq<(String, JsonValue)> = es@;
    es.push((String::from_str("name"), JsonValue::Str(m.name.clone())));
    let ghost es2: Seq<(String, JsonValue)> = es@;
    es.push((String::from_str("type"), JsonValue::Str(m.measurement_type.clone())));
    proof {
        reveal_with_fuel(jentries_of, 5);
        assert(es1.drop_last() =~= Seq::<(String, JsonValue)>::empty());
        assert(es2.drop_last() =~= es1);
        assert(es@.drop_last() =~= es2);
        assert(jentries_of(es@) =~= mand);
    }
    let ghost acc1: Seq<(Seq<char>, JVal)> = mand + opt_str_entry("podUnits"@, dv.pod_units);
    match &m.pod_units {
        Some(p) => {
            let ghost esb: Seq<(String, JsonValue)> = es@;
            es.push((String::from_str("podUnits"), JsonValue::Str(p.clone())));
            proof {
                assert(es@.drop_last() =~= esb);
                assert(jentries_of(es@) =~= acc1);
            }
        },
        None => {
            proof {
                assert(jentries_of(es@) =~= acc1);
            }
        },
    }
    let ghost acc2: Seq<(Seq<char>, JVal)> = acc1 + opt_str_entry("displayUnits"@, dv.display_units);
    match &m.display_units {
        Some(p) => {
            let ghost esb: Seq<(String, JsonValue)> = es@;
            es.push((String::from_str("displayUnits"), JsonValue::Str(p.clone())));
            proof {
                assert(es@.drop_last() =~= esb);
                assert(jentries_of(es@) =~= acc2);
            }
        },
        None => {
            proof {
                assert(jentries_of(es@) =~= acc2);
            }
        },
    }
    let ghost acc3: Seq<(Seq<char>, JVal)> = acc2 + opt_list_entry("enumValues"@, dv.enum_values);
    match &m.enum_values {
        Some(l) => {
            let ghost esb: Seq<(String, JsonValue)> = es@;
            es.push((String::from_str("enumValues"), JsonValue::Arr(strs_doc(l))));
            proof {
                assert(es@.drop_last() =~= esb);
                assert(jentries_of(es@) =~= acc3);
            }
        },
        None => {
            proof {
                assert(jentries_of(es@) =~= acc3);
            }
        },
    }
    let ghost acc4: Seq<(Seq<char>, JVal)> = acc3 + opt_range_entry("safeRange"@, dv.safe_range);
    match &m.safe_range {
        Some(rg) => {
            let ghost esb: Seq<(String, JsonValue)> = es@;
            let mut pair: Vec<JsonValue> = Vec::new();
            pair.push(JsonValue::NumText(rg.0.clone()));
            let ghost pair1: Seq<JsonValue> = pair@;
            pair.push(JsonValue::NumText(rg.1.clone()));
            proof {
                reveal_with_fuel(jvals_of, 4);
                assert(pair1.drop_last() =~= Seq::<JsonValue>::empty());
                assert(pair@.drop_last() =~= pair1);
                assert(jvals_of(pair@) =~= seq![JVal::NumText(rg.0@), JVal::NumText(rg.1@)]);
            }
            es.push((String::from_str("safeRange"), JsonValue::Arr(pair)));
            proof {
                assert(es@.drop_last() =~= esb);
                assert(jentries_of(es@) =~= acc4);
            }
        },
        None => {
            proof {
                assert(jentries_of(es@) =~= acc4);
            }
        },
    }
    let ghost acc5: Seq<(Seq<char>, JVal)> = acc4 + opt_range_entry(
        "warningRange"@,
        dv.warning_range,
    );
    match &m.warning_range {
        Some(rg) => {
            let ghost esb: Seq<(String, JsonValue)> = es@;
            let mut pair: Vec<JsonValue> = Vec::new();
            pair.push(JsonValue::NumText(rg.0.clone()));
            let ghost pair1: Seq<JsonValue> = pair@;
            pair.push(JsonValue::NumText(rg.1.clone()));
            proof {
                reveal_with_fuel(jvals_of, 4);
                assert(pair1.drop_last() =~= Seq::<JsonValue>::empty());
                assert(pair@.drop_last() =~= pair1);
                assert(jvals_of(pair@) =~= seq![JVal::NumText(rg.0@), JVal::NumText(rg.1@)]);
            }
            es.push((String::from_str("warningRange"), JsonValue::Arr(pair)));
            proof {
                assert(es@.drop_last() =~= esb);
                assert(jentries_of(es@) =~= acc5);
            }
        },
        None => {
            proof {
                assert(jentries_of(es@) =~= acc5);
            }
        },
    }
    JsonValue::Obj(es)
}

/// Builds the measurements file document for one board.
pub fn measurements_doc(ms: &Vec<Measurement>) -> (r: JsonValue)
    ensures
        r.deep_view() == spec_measurements_doc(ms.deep_view()),
        jdepth(r.deep_view()) <= 3,
{
    let ghost dv: Seq<MeasurementV> = ms.deep_view();
    let mut out: Vec<JsonValue> = Vec::new();
    proof {
        assert(jvals_of(out@) =~= enc_measurements(dv.take(0)));
    }
    let mut i: usize = 0;
    while i < ms.len()
        invariant
            i <= ms.len(),
            dv == ms.deep_view(),
            dv.len() == ms@.len(),
            jvals_of(out@) == enc_measurements(dv.take(i as int)),
        decreases ms.len() - i,
    {
        let ghost out0: Seq<JsonValue> = out@;
        let d = measurement_doc(&ms[i]);
        out.push(d);
        proof {
            assert(dv[i as int] == ms@[i as int].deep_view());
            assert(out@.drop_last() =~= out0);
            assert(jvals_of(out@) == jvals_of(out0).push(jval_of(out@.last())));
            assert(dv.take(i + 1).drop_last() =~= dv.take(i as int));
            assert(dv.take(i + 1).last() == dv[i as int]);
            assert(enc_measurements(dv.take(i + 1)) == enc_measurements(dv.take(i as int)).push(
                enc_measurement(dv[i as int]),
            ));
        }
        i = i + 1;
    }
    proof {
        assert(dv.take(dv.len() as int) =~= dv);
        lemma_enc_measurements_depth(dv);
    }
    JsonValue::Arr(out)
}

/// Builds the document for one packet.
pub fn packet_doc(p: &Packet) -> (r: JsonValue)
    ensures
        r.deep_view() == enc_packet(p.deep_view()),
{
    let ghost dv: PacketV = p.deep_view();
    let ghost mand: Seq<(Seq<char>, JVal)> = seq![
        ("type"@, JVal::Str(dv.packet_type)),
        ("name"@, JVal::Str(dv.name)),
        ("variables"@, JVal::Arr(enc_strs(dv.variables))),
    ];
    let mut es: Vec<(String, JsonValue)> = Vec::new();
    es.push((String::from_str("type"), JsonValue::Str(p.packet_type.clone())));
    let ghost es1: Seq<(String, JsonValue)> = es@;
    es.push((String::from_str("name"), JsonValue::Str(p.name.clone())));
    let ghost es2: Seq<(String, JsonValue)> = es@;
    es.push((String::from_str("variables"), JsonValue::Arr(strs_doc(&p.variables))));
    proof {
        reveal_with_fuel(jentries_of, 5);
        assert(es1.drop_last() =~= Seq::<(String, JsonValue)>::empty());
        assert(es2.drop_last() =~= es1);
        assert(es@.drop_last() =~= es2);
        assert(jentries_of(es@) =~= mand);
    }
    let ghost acc: Seq<(Seq<char>, JVal)> = mand + match dv.id {
        None => Seq::<(Seq<char>, JVal)>::empty(),
        Some(n) => seq![("id"@, JVal::UInt(n as u64))],
    };
    match p.id {
        Some(n) => {
            let ghost esb: Seq<(String, JsonValue)> = es@;
            es.push((String::from_str("id"), JsonValue::UInt(n as u64)));
            proof {
                assert(es@.drop_last() =~= esb);
                assert(jentries_of(es@) =~= acc);
            }
        },
        None => {
            proof {
                assert(jentries_of(es@) =~= acc);
            }
        },
    }
    JsonValue::Obj(es)
}

/// Builds a packets file document from a list of packets.
pub fn packets_doc(ps: &Vec<Packet>) -> (r: JsonValue)
    ensures
        r.deep_view() == spec_packets_doc(ps.deep_view()),
        jdepth(r.deep_view()) <= 3,
{
    let ghost dv: Seq<PacketV> = ps.deep_view();
    let mut out: Vec<JsonValue> = Vec::new();
    proof {
        assert(jvals_of(out@) =~= enc_packets(dv.take(0)));
    }
    let mut i: usize = 0;
    while i < ps.len()
        invariant
            i <= ps.len(),
            dv == ps.deep_view(),
            dv.len() == ps@.len(),
            jvals_of(out@) == enc_packets(dv.take(i as int)),
        decreases ps.len() - i,
    {
        let ghost out0: Seq<JsonValue> = out@;
        let d = packet_doc(&ps[i]);
        out.push(d);
        proof {
            assert(dv[i as int] == ps@[i as int].deep_view());
            assert(out@.drop_last() =~= out0);
            assert(jvals_of(out@) == jvals_of(out0).push(jval_of(out@.last())));
            assert(dv.take(i + 1).drop_last() =~= dv.take(i as int));
            assert(dv.take(i + 1).last() == dv[i as int]);
            assert(enc_packets(dv.take(i + 1)) == enc_packets(dv.take(i as int)).push(
                enc_packet(dv[i as int]),
            ));
        }
        i = i + 1;
    }
    proof {
        assert(dv.take(dv.len() as int) =~= dv);
        lemma_enc_packets_depth(dv);
    }
    JsonValue::Arr(out)
}

/// Builds the manifest document the writer regenerates for one board.
pub fn manifest_doc(name: &str, b: &Board) -> (r: JsonValue)
    ensures
        r.deep_view() == spec_manifest_doc(name@, b.deep_view()),
        jdepth(r.deep_view()) <= 2,
{
    let mut mlist: Vec<JsonValue> = Vec::new();
    mlist.push(JsonValue::Str(measurements_file(name)));
    proof {
        reveal_with_fuel(jvals_of, 3);
        assert(mlist@.drop_last() =~= Seq::<JsonValue>::empty());
        assert(jvals_of(mlist@) =~= seq![JVal::Str(spec_measurements_file(name@))]);
    }
    let mut plist: Vec<JsonValue> = Vec::new();
    plist.push(JsonValue::Str(String::from_str("packets.json")));
    let ghost plist1: Seq<JsonValue> = plist@;
    plist.push(JsonValue::Str(String::from_str("orders.json")));
    proof {
        reveal_with_fuel(jvals_of, 4);
        assert(plist1.drop_last() =~= Seq::<JsonValue>::empty());
        assert(plist@.drop_last() =~= plist1);
        assert(jvals_of(plist@) =~= seq![
            JVal::Str("packets.json"@),
            JVal::Str("orders.json"@),
        ]);
    }
    let mut es: Vec<(String, JsonValue)> = Vec::new();
    es.push((String::from_str("board_id"), JsonValue::UInt(b.board_id as u64)));
    let ghost es1: Seq<(String, JsonValue)> = es@;
    es.push((String::from_str("board_ip"), JsonValue::Str(b.board_ip.clone())));
    let ghost es2: Seq<(String, JsonValue)> = es@;
    es.push((String::from_str("measurements"), JsonValue::Arr(mlist)));
    let ghost es3: Seq<(String, JsonValue)> = es@;
    es.push((String::from_str("packets"), JsonValue::Arr(plist)));
    proof {
        reveal_with_fuel(jentries_of, 6);
        assert(es1.drop_last() =~= Seq::<(String, JsonValue)>::empty());
        assert(es2.drop_last() =~= es1);
        assert(es3.drop_last() =~= es2);
        assert(es@.drop_last() =~= es3);
        assert(jentries_of(es@) =~= spec_manifest_doc(name@, b.deep_view())->Obj_0);
        assert forall|i: int| 0 <= i < jentries_of(es@).len() implies jdepth(
            (#[trigger] jentries_of(es@)[i]).1,
        ) <= 1 by {
            reveal_with_fuel(jdepth_seq, 4);
            let ml = seq![JVal::Str(spec_measurements_file(name@))];
            assert(ml.drop_last() =~= Seq::<JVal>::empty());
            let pl = seq![JVal::Str("packets.json"@), JVal::Str("orders.json"@)];
            assert(pl.drop_last() =~= seq![JVal::Str("packets.json"@)]);
            assert(seq![JVal::Str("packets.json"@)].drop_last() =~= Seq::<JVal>::empty());
            assert(jdepth_seq(ml) == 0);
            assert(jdepth_seq(pl) == 0);
            assert(jdepth(JVal::Arr(ml)) == 1);
            assert(jdepth(JVal::Arr(pl)) == 1);
            assert(jdepth(JVal::UInt(b.deep_view().board_id as u64)) == 0);
            assert(jdepth(JVal::Str(b.deep_view().board_ip)) == 0);
        }
        lemma_jdepth_entries_le(jentries_of(es@), 1);
    }
    JsonValue::Obj(es)
}

/// Builds the board index document: each board's name mapped to its
/// canonical manifest path, in board order.
pub fn index_doc(boards: &Vec<BoardEntry>) -> (r: JsonValue)
    ensures
        r.deep_view() == spec_index_doc(boards.deep_view()),
        jdepth(r.deep_view()) <= 1,
{
    let ghost dv: Seq<BoardEntryV> = boards.deep_view();
    let mut es: Vec<(String, JsonValue)> = Vec::new();
    proof {
        assert(jentries_of(es@) =~= enc_index_entries(dv.take(0)));
    }
    let mut i: usize = 0;
    while i < boards.len()
        invariant
            i <= boards.len(),
            dv == boards.deep_view(),
            dv.len() == boards@.len(),
            jentries_of(es@) == enc_index_entries(dv.take(i as int)),
        decreases boards.len() - i,
    {
        let ghost es0: Seq<(String, JsonValue)> = es@;
        let p = manifest_path(boards[i].name.as_str());
        es.push((boards[i].name.clone(), JsonValue::Str(p)));
        proof {
            assert(dv[i as int] == boards@[i as int].deep_view());
            assert(es@.drop_last() =~= es0);
            assert(jentries_of(es@) == jentries_of(es0).push(
                (es@.last().0@, jval_of(es@.last().1)),
            ));
            assert(dv.take(i + 1).drop_last() =~= dv.take(i as int));
            assert(dv.take(i + 1).last() == dv[i as int]);
            assert(enc_index_entries(dv.take(i + 1)) == enc_index_entries(dv.take(i as int)).push(
                (dv[i as int].name, JVal::Str(spec_manifest_path(dv[i as int].name))),
            ));
        }
        i = i + 1;
    }
    proof {
        assert(dv.take(dv.len() as int) =~= dv);
        lemma_enc_index_entries_flat(dv);
    }
    JsonValue::Obj(es)
}

} // verus!

verus! {

/// What a board manifest contributes: identity and the two referenced file
/// lists.
pub struct Manifest {
    pub board_id: u32,
    pub board_ip: String,
    pub measurement_files: Vec<String>,
    pub packet_files: Vec<String>,
}

/// Mathematical mirror of [`Manifest`].
pub ghost struct ManifestV {
    pub board_id: u32,
    pub board_ip: Seq<char>,
    pub measurement_files: Seq<Seq<char>>,
    pub packet_files: Seq<Seq<char>>,
}

impl DeepView for Manifest {
    type V = ManifestV;

    open spec fn deep_view(&self) -> ManifestV {
        ManifestV {
            board_id: self.board_id,
            board_ip: self.board_ip@,
            measurement_files: self.measurement_files.deep_view(),
            packet_files: self.packet_files.deep_view(),
        }
    }
}

/// The string elements of a document list, other elements skipped.
pub open spec fn str_elems(es: Seq<JVal>) -> Seq<Seq<char>>
    decreases es.len(),
{
    if es.len() == 0 {
        Seq::empty()
    } else {
        match es.last() {
            JVal::Str(s) => str_elems(es.drop_last()).push(s),
            _ => str_elems(es.drop_last()),
        }
    }
}

/// The manifest any document decodes to, with the documented defaults: id
/// `0` where `board_id` is no integer, ip `0.0.0.0` where `board_ip` is no
/// string, empty file lists where `measurements` or `packets` is no list;
/// integers too wide for `u32` are truncated.
pub open spec fn manifest_of(v: JVal) -> ManifestV {
    match v {
        JVal::Obj(es) => ManifestV {
            board_id: match jobj_get(es, "board_id"@) {
                Some(JVal::UInt(n)) => (n % 0x1_0000_0000) as u32,
                _ => 0,
            },
            board_ip: match jobj_get(es, "board_ip"@) {
                Some(JVal::Str(s)) => s,
                _ => "0.0.0.0"@,
            },
            measurement_files: match jobj_get(es, "measurements"@) {
                Some(JVal::Arr(fs)) => str_elems(fs),
                _ => Seq::empty(),
            },
            packet_files: match jobj_get(es, "packets"@) {
                Some(JVal::Arr(fs)) => str_elems(fs),
                _ => Seq::empty(),
            },
        },
        _ => ManifestV {
            board_id: 0,
            board_ip: "0.0.0.0"@,
            measurement_files: Seq::empty(),
            packet_files: Seq::empty(),
        },
    }
}

/// The manifest of a board whose manifest file is absent.
pub open spec fn spec_default_manifest() -> ManifestV {
    ManifestV {
        board_id: 0,
        board_ip: "0.0.0.0"@,
        measurement_files: Seq::empty(),
        packet_files: Seq::empty(),
    }
}

/// Keeps the string elements of a document list, in order.
fn string_elems(es: &Vec<JsonValue>) -> (r: Vec<String>)
    ensures
        r.deep_view() == str_elems(jvals_of(es@)),
{
    let ghost js: Seq<JVal> = jvals_of(es@);
    proof {
        lemma_jvals_of(es@);
    }
    let mut out: Vec<String> = Vec::new();
    proof {
        assert(out.deep_view() =~= str_elems(js.take(0)));
    }
    let mut i: usize = 0;
    while i < es.len()
        invariant
            i <= es.len(),
            js == jvals_of(es@),
            js.len() == es@.len(),
            forall|n: int| 0 <= n < es@.len() ==> js[n] == jval_of(#[trigger] es@[n]),
            out.deep_view() == str_elems(js.take(i as int)),
        decreases es.len() - i,
    {
        proof {
            assert(js.take(i + 1).drop_last() =~= js.take(i as int));
            assert(js.take(i + 1).last() == js[i as int]);
        }
        let ghost out0: Seq<Seq<char>> = out.deep_view();
        match &es[i] {
            JsonValue::Str(s) => {
                out.push(s.clone());
                proof {
                    assert(out.deep_view() =~= out0.push(s@));
                }
            },
            _ => {},
        }
        i = i + 1;
    }
    proof {
        assert(js.take(es@.len() as int) =~= js);
    }
    out
}

/// Decodes a board manifest.  This never fails: every field falls back to
/// its documented default.
pub fn decode_manifest(v: &JsonValue) -> (r: Manifest)
    ensures
        r.deep_view() == manifest_of(v.deep_view()),
{
    match v {
        JsonValue::Obj(es) => {
            let board_id: u32 = match obj_get(es, "board_id") {
                Some(bv) => match bv {
                    JsonValue::UInt(n) => (*n % 0x1_0000_0000u64) as u32,
                    _ => 0,
                },
                None => 0,
            };
            let board_ip: String = match obj_get(es, "board_ip") {
                Some(bv) => match bv {
                    JsonValue::Str(s) => s.clone(),
                    _ => String::from_str("0.0.0.0"),
                },
                None => String::from_str("0.0.0.0"),
            };
            let measurement_files: Vec<String> = match obj_get(es, "measurements") {
                Some(bv) => match bv {
                    JsonValue::Arr(fs) => string_elems(fs),
                    _ => Vec::new(),
                },
                None => Vec::new(),
            };
            let packet_files: Vec<String> = match obj_get(es, "packets") {
                Some(bv) => match bv {
                    JsonValue::Arr(fs) => string_elems(fs),
                    _ => Vec::new(),
                },
                None => Vec::new(),
            };
            let m = Manifest { board_id, board_ip, measurement_files, packet_files };
            proof {
                assert(m.deep_view().measurement_files =~= manifest_of(
                    v.deep_view(),
                ).measurement_files);
                assert(m.deep_view().packet_files =~= manifest_of(v.deep_view()).packet_files);
            }
            m
        },
        _ => {
            let m = Manifest {
                board_id: 0,
                board_ip: String::from_str("0.0.0.0"),
                measurement_files: Vec::new(),
                packet_files: Vec::new(),
            };
            proof {
                assert(m.deep_view().measurement_files =~= Seq::<Seq<char>>::empty());
                assert(m.deep_view().packet_files =~= Seq::<Seq<char>>::empty());
            }
            m
        },
    }
}

/// The manifest used for a board directory without a manifest file.
pub fn default_manifest() -> (r: Manifest)
    ensures
        r.deep_view() == spec_default_manifest(),
{
    let m = Manifest {
        board_id: 0,
        board_ip: String::from_str("0.0.0.0"),
        measurement_files: Vec::new(),
        packet_files: Vec::new(),
    };
    proof {
        assert(m.deep_view().measurement_files =~= Seq::<Seq<char>>::empty());
        assert(m.deep_view().packet_files =~= Seq::<Seq<char>>::empty());
    }
    m
}

} // verus!

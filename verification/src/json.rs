//! JSON documents as the engine sees them.
//!
//! A [`JsonValue`] is the executable document tree; its mathematical
//! counterpart is [`JVal`], reached through `deep_view()`.  Text is turned
//! into a document by [`parse_json`], which relies on `serde_json`; a
//! document is turned back into text by the verified pretty printer in this
//! module, whose output is pinned down exactly by the spec function
//! [`json_text`].

use vstd::prelude::*;

verus! {

/// One JSON document node.
///
/// Numbers that fit in `u64` are held as `UInt`; every other JSON number
/// (negative, fractional, exponent form) is held as `NumText`, its literal
/// token kept as text, so that no floating point runs through the engine.
#[derive(Debug)]
pub enum JsonValue {
    Null,
    Bool(bool),
    UInt(u64),
    NumText(String),
    Str(String),
    Arr(Vec<JsonValue>),
    Obj(Vec<(String, JsonValue)>),
}

/// The mathematical shape of a JSON document: strings as `Seq<char>`,
/// lists as `Seq`.
pub ghost enum JVal {
    Null,
    Bool(bool),
    UInt(u64),
    NumText(Seq<char>),
    Str(Seq<char>),
    Arr(Seq<JVal>),
    Obj(Seq<(Seq<char>, JVal)>),
}

/// The document denoted by an executable node.
pub open spec fn jval_of(v: JsonValue) -> JVal
    decreases v,
{
    match v {
        JsonValue::Null => JVal::Null,
        JsonValue::Bool(b) => JVal::Bool(b),
        JsonValue::UInt(n) => JVal::UInt(n),
        JsonValue::NumText(s) => JVal::NumText(s@),
        JsonValue::Str(s) => JVal::Str(s@),
        JsonValue::Arr(es) => JVal::Arr(jvals_of(es@)),
        JsonValue::Obj(es) => JVal::Obj(jentries_of(es@)),
    }
}

/// The documents denoted by a list of executable nodes, element by element.
pub open spec fn jvals_of(es: Seq<JsonValue>) -> Seq<JVal>
    decreases es,
{
    if es.len() == 0 {
        Seq::empty()
    } else {
        jvals_of(es.drop_last()).push(jval_of(es.last()))
    }
}

/// The key/document pairs denoted by a list of executable object entries.
pub open spec fn jentries_of(es: Seq<(String, JsonValue)>) -> Seq<(Seq<char>, JVal)>
    decreases es,
{
    if es.len() == 0 {
        Seq::empty()
    } else {
        jentries_of(es.drop_last()).push((es.last().0@, jval_of(es.last().1)))
    }
}

impl DeepView for JsonValue {
    type V = JVal;

    open spec fn deep_view(&self) -> JVal {
        jval_of(*self)
    }
}

/// `jvals_of` maps `jval_of` over the list: the lengths agree and each
/// element is the view of the element below it.
pub proof fn lemma_jvals_of(es: Seq<JsonValue>)
    ensures
        jvals_of(es).len() == es.len(),
        forall|i: int| 0 <= i < es.len() ==> jvals_of(es)[i] == jval_of(#[trigger] es[i]),
    decreases es.len(),
{
    if es.len() > 0 {
        lemma_jvals_of(es.drop_last());
        assert forall|i: int| 0 <= i < es.len() implies jvals_of(es)[i] == jval_of(
            #[trigger] es[i],
        ) by {
            if i < es.len() - 1 {
                assert(es.drop_last()[i] == es[i]);
            }
        }
    }
}

/// `jentries_of` maps the entry view over the list, element by element.
pub proof fn lemma_jentries_of(es: Seq<(String, JsonValue)>)
    ensures
        jentries_of(es).len() == es.len(),
        forall|i: int| 0 <= i < es.len() ==> jentries_of(es)[i] == ((#[trigger] es[i]).0@,
            jval_of(es[i].1)),
    decreases es.len(),
{
    if es.len() > 0 {
        lemma_jentries_of(es.drop_last());
        assert forall|i: int| 0 <= i < es.len() implies jentries_of(es)[i] == ((
        #[trigger] es[i]).0@, jval_of(es[i].1)) by {
            if i < es.len() - 1 {
                assert(es.drop_last()[i] == es[i]);
            }
        }
    }
}

/// A run of `n` spaces.
pub open spec fn spaces(n: nat) -> Seq<char> {
    Seq::new(n, |i: int| ' ')
}

/// The decimal digit `d % 10` as a character.
pub open spec fn dec_digit(d: nat) -> char {
    ((48 + (d % 10)) as u8) as char
}

/// The decimal notation of `n`, without sign or padding.
pub open spec fn dec_str(n: nat) -> Seq<char>
    decreases n,
{
    if n < 10 {
        seq![dec_digit(n)]
    } else {
        dec_str(n / 10).push(dec_digit(n % 10))
    }
}

/// The lower-case hexadecimal digit `d % 16` as a character.
pub open spec fn hex_digit(d: nat) -> char {
    if d % 16 < 10 {
        ((48 + (d % 16)) as u8) as char
    } else {
        ((87 + (d % 16)) as u8) as char
    }
}

/// How one character appears inside a JSON string literal: the two-character
/// escapes of the JSON grammar, `\u00..` for the remaining control
/// characters, and the character itself otherwise.
pub open spec fn esc_char(c: char) -> Seq<char> {
    if c == '"' {
        seq!['\\', '"']
    } else if c == '\\' {
        seq!['\\', '\\']
    } else if c == '\u{08}' {
        seq!['\\', 'b']
    } else if c == '\u{0C}' {
        seq!['\\', 'f']
    } else if c == '\n' {
        seq!['\\', 'n']
    } else if c == '\r' {
        seq!['\\', 'r']
    } else if c == '\t' {
        seq!['\\', 't']
    } else if (c as nat) < 32 {
        seq!['\\', 'u', '0', '0', hex_digit((c as nat) / 16), hex_digit((c as nat) % 16)]
    } else {
        seq![c]
    }
}

/// A string's characters, each escaped as JSON requires.
pub open spec fn esc_str(s: Seq<char>) -> Seq<char>
    decreases s.len(),
{
    if s.len() == 0 {
        Seq::empty()
    } else {
        esc_str(s.drop_last()) + esc_char(s.last())
    }
}

/// A JSON string literal: the escaped characters between double quotes.
pub open spec fn quoted(s: Seq<char>) -> Seq<char> {
    seq!['"'] + esc_str(s) + seq!['"']
}

/// The text of a document at indentation `ind`, in the pretty layout the
/// writer produces: two more spaces per nesting level, one element or entry
/// per line, `[]` and `{}` for empty lists and objects.
pub open spec fn json_text(v: JVal, ind: nat) -> Seq<char>
    decreases v,
{
    match v {
        JVal::Null => seq!['n', 'u', 'l', 'l'],
        JVal::Bool(b) => if b {
            seq!['t', 'r', 'u', 'e']
        } else {
            seq!['f', 'a', 'l', 's', 'e']
        },
        JVal::UInt(n) => dec_str(n as nat),
        JVal::NumText(s) => s,
        JVal::Str(s) => quoted(s),
        JVal::Arr(es) => if es.len() == 0 {
            seq!['[', ']']
        } else {
            seq!['['] + arr_items_text(es, ind + 2) + seq!['\n'] + spaces(ind) + seq![']']
        },
        JVal::Obj(es) => if es.len() == 0 {
            seq!['{', '}']
        } else {
            seq!['{'] + obj_items_text(es, ind + 2) + seq!['\n'] + spaces(ind) + seq!['}']
        },
    }
}

/// The lines of a non-empty array body: each element on its own line at
/// indentation `ind`, a comma after every element but the last.
pub open spec fn arr_items_text(es: Seq<JVal>, ind: nat) -> Seq<char>
    decreases es,
{
    if es.len() == 0 {
        Seq::empty()
    } else if es.len() == 1 {
        seq!['\n'] + spaces(ind) + json_text(es[0], ind)
    } else {
        arr_items_text(es.drop_last(), ind) + seq![',', '\n'] + spaces(ind) + json_text(
            es.last(),
            ind,
        )
    }
}

/// The lines of a non-empty object body: `"key": value` per line.
pub open spec fn obj_items_text(es: Seq<(Seq<char>, JVal)>, ind: nat) -> Seq<char>
    decreases es,
{
    if es.len() == 0 {
        Seq::empty()
    } else if es.len() == 1 {
        seq!['\n'] + spaces(ind) + quoted(es[0].0) + seq![':', ' '] + json_text(es[0].1, ind)
    } else {
        obj_items_text(es.drop_last(), ind) + seq![',', '\n'] + spaces(ind) + quoted(es.last().0)
            + seq![':', ' '] + json_text(es.last().1, ind)
    }
}

/// How deep a document nests: zero for leaves, one more than the deepest
/// child for arrays and objects.
pub open spec fn jdepth(v: JVal) -> nat
    decreases v,
{
    match v {
        JVal::Arr(es) => 1 + jdepth_seq(es),
        JVal::Obj(es) => 1 + jdepth_entries(es),
        _ => 0,
    }
}

/// The deepest nesting among a list of documents.
pub open spec fn jdepth_seq(es: Seq<JVal>) -> nat
    decreases es,
{
    if es.len() == 0 {
        0
    } else if jdepth_seq(es.drop_last()) >= jdepth(es.last()) {
        jdepth_seq(es.drop_last())
    } else {
        jdepth(es.last())
    }
}

/// The deepest nesting among an object's entries.
pub open spec fn jdepth_entries(es: Seq<(Seq<char>, JVal)>) -> nat
    decreases es,
{
    if es.len() == 0 {
        0
    } else if jdepth_entries(es.drop_last()) >= jdepth(es.last().1) {
        jdepth_entries(es.drop_last())
    } else {
        jdepth(es.last().1)
    }
}

/// Every element of a list nests no deeper than the list's own depth bound.
pub proof fn lemma_jdepth_seq(es: Seq<JVal>)
    ensures
        forall|i: int| 0 <= i < es.len() ==> jdepth(#[trigger] es[i]) <= jdepth_seq(es),
    decreases es.len(),
{
    if es.len() > 0 {
        lemma_jdepth_seq(es.drop_last());
        assert forall|i: int| 0 <= i < es.len() implies jdepth(#[trigger] es[i]) <= jdepth_seq(
            es,
        ) by {
            if i < es.len() - 1 {
                assert(es.drop_last()[i] == es[i]);
            }
        }
    }
}

/// Every entry's value nests no deeper than the entry list's depth bound.
pub proof fn lemma_jdepth_entries(es: Seq<(Seq<char>, JVal)>)
    ensures
        forall|i: int| 0 <= i < es.len() ==> jdepth((#[trigger] es[i]).1) <= jdepth_entries(es),
    decreases es.len(),
{
    if es.len() > 0 {
        lemma_jdepth_entries(es.drop_last());
        assert forall|i: int| 0 <= i < es.len() implies jdepth((#[trigger] es[i]).1)
            <= jdepth_entries(es) by {
            if i < es.len() - 1 {
                assert(es.drop_last()[i] == es[i]);
            }
        }
    }
}

/// Appends `n` spaces to `out`.
fn push_spaces(out: &mut String, n: usize)
    ensures
        final(out)@ == old(out)@ + spaces(n as nat),
{
    let ghost out0: Seq<char> = out@;
    let mut i: usize = 0;
    while i < n
        invariant
            i <= n,
            out@ == out0 + spaces(i as nat),
        decreases n - i,
    {
        out.append(" ");
        proof {
            reveal_strlit(" ");
            assert(spaces(i as nat) + " "@ =~= spaces((i + 1) as nat));
            assert(out0 + spaces(i as nat) + " "@ =~= out0 + spaces((i + 1) as nat));
        }
        i = i + 1;
    }
}

/// The decimal digit `d` as a one-character string.
fn digit_str(d: u64) -> (r: &'static str)
    requires
        d < 10,
    ensures
        r@ == seq![dec_digit(d as nat)],
{
    proof {
        reveal_strlit("0");
        reveal_strlit("1");
        reveal_strlit("2");
        reveal_strlit("3");
        reveal_strlit("4");
        reveal_strlit("5");
        reveal_strlit("6");
        reveal_strlit("7");
        reveal_strlit("8");
        reveal_strlit("9");
    }
    match d {
        0 => "0",
        1 => "1",
        2 => "2",
        3 => "3",
        4 => "4",
        5 => "5",
        6 => "6",
        7 => "7",
        8 => "8",
        _ => "9",
    }
}

/// Appends the decimal notation of `n` to `out`.
fn push_u64(out: &mut String, n: u64)
    ensures
        final(out)@ == old(out)@ + dec_str(n as nat),
    decreases n,
{
    if n < 10 {
        let d = digit_str(n);
        out.append(d);
    } else {
        push_u64(out, n / 10);
        let d = digit_str(n % 10);
        out.append(d);
        proof {
            assert(dec_str((n as nat) / 10) + seq![dec_digit((n as nat) % 10)] =~= dec_str(
                n as nat,
            ));
            assert(old(out)@ + dec_str((n as nat) / 10) + d@ =~= old(out)@ + dec_str(n as nat));
        }
    }
}

/// The hexadecimal digit `d` as a one-character string.
fn hex_str(d: u32) -> (r: &'static str)
    requires
        d < 16,
    ensures
        r@ == seq![hex_digit(d as nat)],
{
    proof {
        reveal_strlit("0");
        reveal_strlit("1");
        reveal_strlit("2");
        reveal_strlit("3");
        reveal_strlit("4");
        reveal_strlit("5");
        reveal_strlit("6");
        reveal_strlit("7");
        reveal_strlit("8");
        reveal_strlit("9");
        reveal_strlit("a");
        reveal_strlit("b");
        reveal_strlit("c");
        reveal_strlit("d");
        reveal_strlit("e");
        reveal_strlit("f");
    }
    match d {
        0 => "0",
        1 => "1",
        2 => "2",
        3 => "3",
        4 => "4",
        5 => "5",
        6 => "6",
        7 => "7",
        8 => "8",
        9 => "9",
        10 => "a",
        11 => "b",
        12 => "c",
        13 => "d",
        14 => "e",
        _ => "f",
    }
}

/// Appends the characters of `s` to `out`, escaped as JSON requires.
fn push_escaped(out: &mut String, s: &str)
    ensures
        final(out)@ == old(out)@ + esc_str(s@),
{
    let ghost out0: Seq<char> = out@;
    let len = s.unicode_len();
    let mut i: usize = 0;
    while i < len
        invariant
            i <= len,
            len == s@.len(),
            out@ == out0 + esc_str(s@.take(i as int)),
        decreases len - i,
    {
        let c = s.get_char(i);
        if c == '"' {
            out.append("\\\"");
            proof {
                reveal_strlit("\\\"");
                assert("\\\""@ =~= esc_char(c));
            }
        } else if c == '\\' {
            out.append("\\\\");
            proof {
                reveal_strlit("\\\\");
                assert("\\\\"@ =~= esc_char(c));
            }
        } else if c == '\u{08}' {
            out.append("\\b");
            proof {
                reveal_strlit("\\b");
                assert("\\b"@ =~= esc_char(c));
            }
        } else if c == '\u{0C}' {
            out.append("\\f");
            proof {
                reveal_strlit("\\f");
                assert("\\f"@ =~= esc_char(c));
            }
        } else if c == '\n' {
            out.append("\\n");
            proof {
                reveal_strlit("\\n");
                assert("\\n"@ =~= esc_char(c));
            }
        } else if c == '\r' {
            out.append("\\r");
            proof {
                reveal_strlit("\\r");
                assert("\\r"@ =~= esc_char(c));
            }
        } else if c == '\t' {
            out.append("\\t");
            proof {
                reveal_strlit("\\t");
                assert("\\t"@ =~= esc_char(c));
            }
        } else if (c as u32) < 32 {
            out.append("\\u00");
            out.append(hex_str((c as u32) / 16));
            out.append(hex_str((c as u32) % 16));
            proof {
                reveal_strlit("\\u00");
                assert("\\u00"@ + seq![hex_digit(((c as u32) / 16) as nat)] + seq![
                    hex_digit(((c as u32) % 16) as nat),
                ] =~= esc_char(c));
            }
        } else {
            let piece = s.substring_char(i, i + 1);
            out.append(piece);
            proof {
                assert(piece@ =~= esc_char(c));
            }
        }
        proof {
            assert(s@.take((i + 1) as int).drop_last() =~= s@.take(i as int));
            assert(s@.take((i + 1) as int).last() == s@[i as int]);
            assert(esc_str(s@.take((i + 1) as int)) == esc_str(s@.take(i as int)) + esc_char(
                s@[i as int],
            ));
            assert(out@ =~= out0 + esc_str(s@.take((i + 1) as int)));
        }
        i = i + 1;
    }
    proof {
        assert(s@.take(len as int) =~= s@);
    }
}

/// Appends the JSON string literal for `s` to `out`.
fn push_quoted(out: &mut String, s: &str)
    ensures
        final(out)@ == old(out)@ + quoted(s@),
{
    out.append("\"");
    push_escaped(out, s);
    out.append("\"");
    proof {
        reveal_strlit("\"");
        assert(old(out)@ + "\""@ + esc_str(s@) + "\""@ =~= old(out)@ + quoted(s@));
    }
}

/// Appends the pretty text of `v` at indentation `ind` to `out`.
#[verifier::rlimit(50)]
fn push_json(out: &mut String, v: &JsonValue, ind: usize)
    requires
        ind + 2 * jdepth(v.deep_view()) + 2 <= usize::MAX,
    ensures
        final(out)@ == old(out)@ + json_text(v.deep_view(), ind as nat),
    decreases *v,
{
    let ghost out0: Seq<char> = out@;
    match v {
        JsonValue::Null => {
            out.append("null");
            proof {
                reveal_strlit("null");
                assert(out@ =~= out0 + json_text(v.deep_view(), ind as nat));
            }
        },
        JsonValue::Bool(b) => {
            if *b {
                out.append("true");
                proof {
                    reveal_strlit("true");
                    assert(out@ =~= out0 + json_text(v.deep_view(), ind as nat));
                }
            } else {
                out.append("false");
                proof {
                    reveal_strlit("false");
                    assert(out@ =~= out0 + json_text(v.deep_view(), ind as nat));
                }
            }
        },
        JsonValue::UInt(n) => {
            push_u64(out, *n);
        },
        JsonValue::NumText(s) => {
            out.append(s.as_str());
        },
        JsonValue::Str(s) => {
            push_quoted(out, s.as_str());
        },
        JsonValue::Arr(es) => {
            let ghost js: Seq<JVal> = jvals_of(es@);
            proof {
                lemma_jvals_of(es@);
                lemma_jdepth_seq(js);
            }
            if es.len() == 0 {
                out.append("[]");
                proof {
                    reveal_strlit("[]");
                    assert(out@ =~= out0 + json_text(v.deep_view(), ind as nat));
                }
            } else {
                out.append("[");
                proof {
                    reveal_strlit("[");
                }
                let mut i: usize = 0;
                while i < es.len()
                    invariant
                        *v == JsonValue::Arr(*es),
                        i <= es.len(),
                        js == jvals_of(es@),
                        js.len() == es@.len(),
                        forall|k: int| 0 <= k < es@.len() ==> js[k] == jval_of(#[trigger] es@[k]),
                        forall|k: int| 0 <= k < js.len() ==> jdepth(#[trigger] js[k])
                            <= jdepth_seq(js),
                        ind + 2 * (1 + jdepth_seq(js)) + 2 <= usize::MAX,
                        out@ == out0 + seq!['['] + arr_items_text(
                            js.take(i as int),
                            (ind + 2) as nat,
                        ),
                    decreases es.len() - i,
                {
                    if i > 0 {
                        out.append(",");
                        proof {
                            reveal_strlit(",");
                        }
                    }
                    out.append("\n");
                    proof {
                        reveal_strlit("\n");
                    }
                    push_spaces(out, ind + 2);
                    proof {
                        assert(decreases_to!(*v => v->Arr_0));
                        assert(decreases_to!(v->Arr_0 => v->Arr_0@));
                        assert(v->Arr_0@ == es@);
                        assert(decreases_to!(es@ => es@[i as int]));
                    }
                    push_json(out, &es[i], ind + 2);
                    proof {
                        assert(js.take((i + 1) as int).drop_last() =~= js.take(i as int));
                        assert(js.take((i + 1) as int).last() == js[i as int]);
                        if i == 0 {
                            assert(arr_items_text(js.take(1), (ind + 2) as nat) == seq!['\n']
                                + spaces((ind + 2) as nat) + json_text(
                                js.take(1)[0],
                                (ind + 2) as nat,
                            ));
                        }
                        assert(out@ =~= out0 + seq!['['] + arr_items_text(
                            js.take((i + 1) as int),
                            (ind + 2) as nat,
                        ));
                    }
                    i = i + 1;
                }
                out.append("\n");
                proof {
                    reveal_strlit("\n");
                }
                push_spaces(out, ind);
                out.append("]");
                proof {
                    reveal_strlit("]");
                    assert(js.take(es@.len() as int) =~= js);
                    assert(out@ =~= out0 + json_text(v.deep_view(), ind as nat));
                }
            }
        },
        JsonValue::Obj(es) => {
            let ghost js: Seq<(Seq<char>, JVal)> = jentries_of(es@);
            proof {
                lemma_jentries_of(es@);
                lemma_jdepth_entries(js);
            }
            if es.len() == 0 {
                out.append("{}");
                proof {
                    reveal_strlit("{}");
                    assert(out@ =~= out0 + json_text(v.deep_view(), ind as nat));
                }
            } else {
                out.append("{");
                proof {
                    reveal_strlit("{");
                }
                let mut i: usize = 0;
                while i < es.len()
                    invariant
                        *v == JsonValue::Obj(*es),
                        i <= es.len(),
                        js == jentries_of(es@),
                        js.len() == es@.len(),
                        forall|k: int| 0 <= k < es@.len() ==> js[k] == ((#[trigger] es@[k]).0@,
                            jval_of(es@[k].1)),
                        forall|k: int| 0 <= k < js.len() ==> jdepth((#[trigger] js[k]).1)
                            <= jdepth_entries(js),
                        ind + 2 * (1 + jdepth_entries(js)) + 2 <= usize::MAX,
                        out@ == out0 + seq!['{'] + obj_items_text(
                            js.take(i as int),
                            (ind + 2) as nat,
                        ),
                    decreases es.len() - i,
                {
                    if i > 0 {
                        out.append(",");
                        proof {
                            reveal_strlit(",");
                        }
                    }
                    out.append("\n");
                    proof {
                        reveal_strlit("\n");
                    }
                    push_spaces(out, ind + 2);
                    push_quoted(out, es[i].0.as_str());
                    out.append(": ");
                    proof {
                        reveal_strlit(": ");
                        assert(decreases_to!(*v => v->Obj_0));
                        assert(decreases_to!(v->Obj_0 => v->Obj_0@));
                        assert(v->Obj_0@ == es@);
                        assert(decreases_to!(es@ => es@[i as int]));
                        assert(decreases_to!(es@[i as int] => es@[i as int].1));
                    }
                    push_json(out, &es[i].1, ind + 2);
                    proof {
                        assert(js.take((i + 1) as int).drop_last() =~= js.take(i as int));
                        assert(js.take((i + 1) as int).last() == js[i as int]);
                        if i == 0 {
                            assert(obj_items_text(js.take(1), (ind + 2) as nat) == seq!['\n']
                                + spaces((ind + 2) as nat) + quoted(js.take(1)[0].0) + seq![
                                ':',
                                ' ',
                            ] + json_text(js.take(1)[0].1, (ind + 2) as nat));
                        }
                        assert(out@ =~= out0 + seq!['{'] + obj_items_text(
                            js.take((i + 1) as int),
                            (ind + 2) as nat,
                        ));
                    }
                    i = i + 1;
                }
                out.append("\n");
                proof {
                    reveal_strlit("\n");
                }
                push_spaces(out, ind);
                out.append("}");
                proof {
                    reveal_strlit("}");
                    assert(js.take(es@.len() as int) =~= js);
                    assert(out@ =~= out0 + json_text(v.deep_view(), ind as nat));
                }
            }
        },
    }
}

/// The decimal notation of `n` as a fresh string.
pub fn u64_string(n: u64) -> (r: String)
    ensures
        r@ == dec_str(n as nat),
{
    let mut out = String::new();
    push_u64(&mut out, n);
    proof {
        assert(Seq::<char>::empty() + dec_str(n as nat) =~= dec_str(n as nat));
    }
    out
}

/// The pretty text of a whole document: what the writer puts in a file.
pub fn to_pretty_string(v: &JsonValue) -> (r: String)
    requires
        2 * jdepth(v.deep_view()) + 2 <= usize::MAX,
    ensures
        r@ == json_text(v.deep_view(), 0),
{
    let mut out = String::new();
    push_json(&mut out, v, 0);
    proof {
        assert(Seq::<char>::empty() + json_text(v.deep_view(), 0) =~= json_text(v.deep_view(), 0));
    }
    out
}

/// A list all of whose elements nest within `d` nests within `d` itself.
pub proof fn lemma_jdepth_seq_le(es: Seq<JVal>, d: nat)
    requires
        forall|i: int| 0 <= i < es.len() ==> jdepth(#[trigger] es[i]) <= d,
    ensures
        jdepth_seq(es) <= d,
    decreases es.len(),
{
    if es.len() > 0 {
        assert(forall|i: int| 0 <= i < es.drop_last().len() ==> jdepth(
            #[trigger] es.drop_last()[i],
        ) <= d);
        lemma_jdepth_seq_le(es.drop_last(), d);
        assert(es.last() == es[es.len() - 1]);
    }
}

/// An entry list all of whose values nest within `d` nests within `d`.
pub proof fn lemma_jdepth_entries_le(es: Seq<(Seq<char>, JVal)>, d: nat)
    requires
        forall|i: int| 0 <= i < es.len() ==> jdepth((#[trigger] es[i]).1) <= d,
    ensures
        jdepth_entries(es) <= d,
    decreases es.len(),
{
    if es.len() > 0 {
        assert(forall|i: int| 0 <= i < es.drop_last().len() ==> jdepth(
            (#[trigger] es.drop_last()[i]).1,
        ) <= d);
        lemma_jdepth_entries_le(es.drop_last(), d);
        assert(es.last() == es[es.len() - 1]);
    }
}

/// Declares `serde_json`'s document type so that the conversion below may
/// take it as an argument; the engine never looks inside such a value.
#[verifier::external_type_specification]
#[verifier::external_body]
pub struct ExSerdeValue(serde_json::Value);

/// What `serde_json` makes of a piece of text: `None` where the text is not
/// valid JSON, otherwise the parsed document.
pub uninterp spec fn json_doc_of(s: Seq<char>) -> Option<JVal>;

/// Relies on `serde_json::from_str::<serde_json::Value>`: the parse result is
/// a function of the text alone, named here by `json_doc_of`.  Object keys
/// come out in `serde_json`'s map order with duplicates collapsed, so a
/// parsed object holds distinct keys.
#[verifier::external_body]
pub fn parse_json(s: &str) -> (r: Option<JsonValue>)
    ensures
        match r {
            Some(v) => json_doc_of(s@) == Some(v.deep_view()),
            None => json_doc_of(s@) is None,
        },
{
    match serde_json::from_str::<serde_json::Value>(s) {
        Ok(v) => Some(json_from_serde(v)),
        Err(_) => None,
    }
}

/// Conversion half of [`parse_json`]: maps each `serde_json::Value` variant
/// onto the matching [`JsonValue`] variant, field by field.
#[verifier::external_body]
fn json_from_serde(v: serde_json::Value) -> JsonValue {
    match v {
        serde_json::Value::Null => JsonValue::Null,
        serde_json::Value::Bool(b) => JsonValue::Bool(b),
        serde_json::Value::Number(n) => match n.as_u64() {
            Some(u) => JsonValue::UInt(u),
            None => JsonValue::NumText(n.to_string()),
        },
        serde_json::Value::String(s) => JsonValue::Str(s),
        serde_json::Value::Array(es) => JsonValue::Arr(es.into_iter().map(json_from_serde).collect()),
        serde_json::Value::Object(es) => JsonValue::Obj(
            es.into_iter().map(|(k, e)| (k, json_from_serde(e))).collect(),
        ),
    }
}

} // verus!

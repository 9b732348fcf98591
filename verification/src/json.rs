//! JSON values and their wire form, for response bodies.
//!
//! A `Json` value holds strings as raw UTF-8 bytes and numbers as
//! exact decimals. The serializer is pinned to a canonical byte form
//! (no whitespace); the parser accepts interleaved whitespace and
//! rejects anything else it does not understand, so a malformed body
//! can only ever yield `None`, never a wrong value or a panic.

use vstd::prelude::*;
use crate::decimal::{Decimal, spec_ser_dec, is_digit};

verus! {

/// The mathematical shape of a JSON value, used in contracts.
#[verifier::ext_equal]
pub enum JsonV {
    Null,
    Bool(bool),
    Num(Decimal),
    Str(Seq<u8>),
    Arr(Seq<JsonV>),
    Obj(Seq<(Seq<u8>, JsonV)>),
}

#[derive(Debug)]
pub enum Json {
    Null,
    Bool(bool),
    Num(Decimal),
    Str(Vec<u8>),
    Arr(Vec<Json>),
    Obj(Vec<(Vec<u8>, Json)>),
}

/// The mathematical value of a `Json` tree.
pub open spec fn json_view(j: Json) -> JsonV
    decreases j,
    via json_view_dec
{
    match j {
        Json::Null => JsonV::Null,
        Json::Bool(b) => JsonV::Bool(b),
        Json::Num(d) => JsonV::Num(d),
        Json::Str(s) => JsonV::Str(s@),
        Json::Arr(items) => JsonV::Arr(
            Seq::new(
                items@.len(),
                |i: int|
                    if 0 <= i < items@.len() {
                        json_view(items@[i])
                    } else {
                        JsonV::Null
                    },
            ),
        ),
        Json::Obj(fields) => JsonV::Obj(
            Seq::new(
                fields@.len(),
                |i: int|
                    if 0 <= i < fields@.len() {
                        (fields@[i].0@, json_view(fields@[i].1))
                    } else {
                        (Seq::empty(), JsonV::Null)
                    },
            ),
        ),
    }
}

#[via_fn]
proof fn json_view_dec(j: Json) {
    broadcast use vstd::std_specs::vec::axiom_vec_index_decreases;

    match j {
        Json::Arr(items) => {
            assert forall|i: int| 0 <= i < items@.len() implies decreases_to!(j => items@[i]) by {
                vstd::std_specs::vec::axiom_vec_index_decreases(items, i);
            };
        },
        Json::Obj(fields) => {
            assert forall|i: int| 0 <= i < fields@.len() implies decreases_to!(
                j => fields@[i].1,
            ) by {
                vstd::std_specs::vec::axiom_vec_index_decreases(fields, i);
            };
        },
        _ => {},
    }
}

impl View for Json {
    type V = JsonV;

    open spec fn view(&self) -> JsonV {
        json_view(*self)
    }
}

/// A byte a JSON string may carry in this library's wire form: no
/// control bytes, no quote, no backslash (escapes are not produced and
/// not accepted).
pub open spec fn is_plain_str_byte(b: u8) -> bool {
    b >= 0x20 && b != 0x22 && b != 0x5c
}

pub open spec fn plain_str(s: Seq<u8>) -> bool {
    forall|i: int| 0 <= i < s.len() ==> is_plain_str_byte(s[i])
}

/// Well-formed values: decimals within the library's bounds and
/// strings of plain bytes, throughout.
pub open spec fn json_wf(v: JsonV) -> bool
    decreases v,
{
    match v {
        JsonV::Null => true,
        JsonV::Bool(_) => true,
        JsonV::Num(d) => d.wf(),
        JsonV::Str(s) => plain_str(s),
        JsonV::Arr(items) => forall|i: int| 0 <= i < items.len() ==> json_wf(#[trigger] items[i]),
        JsonV::Obj(fields) => forall|i: int|
            0 <= i < fields.len() ==> plain_str((#[trigger] fields[i]).0) && json_wf(fields[i].1),
    }
}

/// The first field with the given key, if any.
pub open spec fn spec_lookup(fields: Seq<(Seq<u8>, JsonV)>, key: Seq<u8>) -> Option<JsonV>
    decreases fields.len(),
{
    if fields.len() == 0 {
        None
    } else if fields[0].0 == key {
        Some(fields[0].1)
    } else {
        spec_lookup(fields.skip(1), key)
    }
}

/// Looks a key up in an object's field list (first match wins).
pub fn obj_get<'a>(fields: &'a Vec<(Vec<u8>, Json)>, key: &Vec<u8>) -> (r: Option<&'a Json>)
    ensures
        match r {
            Some(v) => spec_lookup(obj_view(fields), key@) == Some(v@),
            None => spec_lookup(obj_view(fields), key@) is None,
        },
{
    let mut i: usize = 0;
    proof {
        assert(obj_view(fields).skip(0) =~= obj_view(fields));
    }
    while i < fields.len()
        invariant
            i <= fields.len(),
            spec_lookup(obj_view(fields), key@) == spec_lookup(obj_view(fields).skip(i as int), key@),
        decreases fields.len() - i,
    {
        let hit = crate::bytes::bytes_eq(&fields[i].0, key);
        proof {
            let fv = obj_view(fields);
            assert(fv.skip(i as int).len() == fields@.len() - i);
            assert(fv.skip(i as int)[0] == fv[i as int]);
        }
        if hit {
            return Some(&fields[i].1);
        }
        proof {
            assert(obj_view(fields).skip(i as int).skip(1) =~= obj_view(fields).skip(i + 1));
        }
        i = i + 1;
    }
    proof {
        assert(obj_view(fields).skip(fields@.len() as int).len() == 0);
    }
    None
}

/// Fields whose keys all differ from `key` do not affect its lookup.
pub proof fn lemma_lookup_skip(fs: Seq<(Seq<u8>, JsonV)>, key: Seq<u8>, n: int)
    requires
        0 <= n <= fs.len(),
        forall|k: int| 0 <= k < n ==> (#[trigger] fs[k]).0 != key,
    ensures
        spec_lookup(fs, key) == spec_lookup(fs.skip(n), key),
    decreases n,
{
    if n > 0 {
        assert(fs[0].0 != key);
        assert(fs.len() > 0);
        assert forall|k: int| 0 <= k < n - 1 implies (#[trigger] fs.skip(1)[k]).0 != key by {
            assert(fs.skip(1)[k] == fs[k + 1]);
        };
        lemma_lookup_skip(fs.skip(1), key, n - 1);
        assert(fs.skip(1).skip(n - 1) =~= fs.skip(n));
    } else {
        assert(fs.skip(0) =~= fs);
    }
}

/// Looking a key up lands on the first field that carries it.
pub proof fn lemma_lookup_at(fs: Seq<(Seq<u8>, JsonV)>, key: Seq<u8>, n: int)
    requires
        0 <= n < fs.len(),
        forall|k: int| 0 <= k < n ==> (#[trigger] fs[k]).0 != key,
        fs[n].0 == key,
    ensures
        spec_lookup(fs, key) == Some(fs[n].1),
{
    lemma_lookup_skip(fs, key, n);
    assert(fs.skip(n)[0] == fs[n]);
    assert(fs.skip(n).len() == fs.len() - n);
}

/// The view of an object's field list.
pub open spec fn obj_view(fields: &Vec<(Vec<u8>, Json)>) -> Seq<(Seq<u8>, JsonV)> {
    Seq::new(fields@.len(), |i: int| (fields@[i].0@, fields@[i].1@))
}

/// The canonical wire form: no whitespace, strings plain, numbers as
/// their decimal wire form.
pub open spec fn spec_ser_json(v: JsonV) -> Seq<u8>
    decreases v,
{
    match v {
        JsonV::Null => seq![0x6eu8, 0x75u8, 0x6cu8, 0x6cu8],
        JsonV::Bool(b) => if b {
            seq![0x74u8, 0x72u8, 0x75u8, 0x65u8]
        } else {
            seq![0x66u8, 0x61u8, 0x6cu8, 0x73u8, 0x65u8]
        },
        JsonV::Num(d) => spec_ser_dec(d),
        JsonV::Str(s) => seq![0x22u8] + s + seq![0x22u8],
        JsonV::Arr(items) => seq![0x5bu8] + spec_ser_items(items) + seq![0x5du8],
        JsonV::Obj(fields) => seq![0x7bu8] + spec_ser_fields(fields) + seq![0x7du8],
    }
}

pub open spec fn spec_ser_items(items: Seq<JsonV>) -> Seq<u8>
    decreases items,
{
    if items.len() == 0 {
        Seq::empty()
    } else if items.len() == 1 {
        spec_ser_json(items[0])
    } else {
        spec_ser_items(items.drop_last()) + seq![0x2cu8] + spec_ser_json(items.last())
    }
}

pub open spec fn spec_ser_fields(fields: Seq<(Seq<u8>, JsonV)>) -> Seq<u8>
    decreases fields,
{
    if fields.len() == 0 {
        Seq::empty()
    } else if fields.len() == 1 {
        spec_ser_field(fields[0])
    } else {
        spec_ser_fields(fields.drop_last()) + seq![0x2cu8] + spec_ser_field(fields.last())
    }
}

pub open spec fn spec_ser_field(field: (Seq<u8>, JsonV)) -> Seq<u8>
    decreases field,
{
    seq![0x22u8] + field.0 + seq![0x22u8, 0x3au8] + spec_ser_json(field.1)
}

pub proof fn lemma_wf_arr_elem(items: Seq<JsonV>, i: int)
    requires
        json_wf(JsonV::Arr(items)),
        0 <= i < items.len(),
    ensures
        json_wf(items[i]),
{
    let v = JsonV::Arr(items);
    assert(v->Arr_0 == items);
    assert(json_wf(items[i]));
}

pub proof fn lemma_wf_obj_elem(fields: Seq<(Seq<u8>, JsonV)>, i: int)
    requires
        json_wf(JsonV::Obj(fields)),
        0 <= i < fields.len(),
    ensures
        plain_str(fields[i].0),
        json_wf(fields[i].1),
{
    let v = JsonV::Obj(fields);
    assert(v->Obj_0 == fields);
    assert(plain_str(fields[i].0) && json_wf(fields[i].1));
}

#[verifier::rlimit(100)]
fn push_json(out: &mut Vec<u8>, v: &Json)
    requires
        json_wf(v@),
    ensures
        final(out)@ == old(out)@ + spec_ser_json(v@),
    decreases *v,
{
    match v {
        Json::Null => {
            out.push(0x6e);
            out.push(0x75);
            out.push(0x6c);
            out.push(0x6c);
            proof {
                assert(out@ =~= old(out)@ + spec_ser_json(v@));
            }
        },
        Json::Bool(b) => {
            if *b {
                out.push(0x74);
                out.push(0x72);
                out.push(0x75);
                out.push(0x65);
            } else {
                out.push(0x66);
                out.push(0x61);
                out.push(0x6c);
                out.push(0x73);
                out.push(0x65);
            }
            proof {
                assert(out@ =~= old(out)@ + spec_ser_json(v@));
            }
        },
        Json::Num(d) => {
            let db = d.to_bytes();
            crate::bytes::extend_bytes(out, &db);
        },
        Json::Str(s) => {
            out.push(0x22);
            crate::bytes::extend_bytes(out, s);
            out.push(0x22);
            proof {
                assert(out@ =~= old(out)@ + spec_ser_json(v@));
            }
        },
        Json::Arr(items) => {
            out.push(0x5b);
            let ghost base = out@;
            let ghost iv = (v@)->Arr_0;
            proof {
                assert(iv.len() == items@.len());
            }
            let mut i: usize = 0;
            while i < items.len()
                invariant
                    json_wf(v@),
                    i <= items.len(),
                    *v == Json::Arr(*items),
                    v@ == JsonV::Arr(iv),
                    iv.len() == items@.len(),
                    forall|k: int| 0 <= k < items@.len() ==> iv[k] == #[trigger] items@[k]@,
                    out@ == base + spec_ser_items(iv.subrange(0, i as int)),
                decreases items.len() - i,
            {
                if i > 0 {
                    out.push(0x2c);
                }
                proof {
                    vstd::std_specs::vec::axiom_vec_index_decreases(*items, i as int);
                    lemma_wf_arr_elem(iv, i as int);
                    assert(json_wf(iv[i as int]));
                }
                push_json(out, &items[i]);
                proof {
                    assert(iv.subrange(0, i + 1).drop_last() =~= iv.subrange(0, i as int));
                    assert(iv.subrange(0, i + 1).last() == iv[i as int]);
                    if i == 0 {
                        assert(out@ =~= base + spec_ser_items(iv.subrange(0, 1)));
                    } else {
                        assert(out@ =~= base + spec_ser_items(iv.subrange(0, i + 1)));
                    }
                }
                i = i + 1;
            }
            out.push(0x5d);
            proof {
                assert(iv.subrange(0, iv.len() as int) =~= iv);
                assert(out@ =~= old(out)@ + spec_ser_json(v@));
            }
        },
        Json::Obj(fields) => {
            out.push(0x7b);
            let ghost base = out@;
            let ghost fv = (v@)->Obj_0;
            proof {
                assert(fv.len() == fields@.len());
            }
            let mut i: usize = 0;
            while i < fields.len()
                invariant
                    json_wf(v@),
                    i <= fields.len(),
                    *v == Json::Obj(*fields),
                    v@ == JsonV::Obj(fv),
                    fv.len() == fields@.len(),
                    forall|k: int| 0 <= k < fields@.len() ==> #[trigger] fv[k]
                        == (fields@[k].0@, fields@[k].1@),
                    out@ == base + spec_ser_fields(fv.subrange(0, i as int)),
                decreases fields.len() - i,
            {
                if i > 0 {
                    out.push(0x2c);
                }
                out.push(0x22);
                crate::bytes::extend_bytes(out, &fields[i].0);
                out.push(0x22);
                out.push(0x3a);
                proof {
                    vstd::std_specs::vec::axiom_vec_index_decreases(*fields, i as int);
                    lemma_wf_obj_elem(fv, i as int);
                    assert(json_wf(fv[i as int].1));
                    assert(fields@[i as int].1@ == fv[i as int].1);
                }
                push_json(out, &fields[i].1);
                proof {
                    assert(fv.subrange(0, i + 1).drop_last() =~= fv.subrange(0, i as int));
                    assert(fv.subrange(0, i + 1).last() == fv[i as int]);
                    assert(spec_ser_field(fv[i as int]) == seq![0x22u8] + fv[i as int].0
                        + seq![0x22u8, 0x3au8] + spec_ser_json(fv[i as int].1));
                    if i == 0 {
                        assert(fv.subrange(0, 1)[0] == fv[0]);
                        assert(spec_ser_fields(fv.subrange(0, 1)) == spec_ser_field(fv[0]));
                        assert(out@ =~= base + spec_ser_fields(fv.subrange(0, 1)));
                    } else {
                        assert(spec_ser_fields(fv.subrange(0, i + 1)) == spec_ser_fields(
                            fv.subrange(0, i as int)) + seq![0x2cu8] + spec_ser_field(fv[i as int]));
                        assert(out@ =~= base + spec_ser_fields(fv.subrange(0, i + 1)));
                    }
                }
                i = i + 1;
            }
            out.push(0x7d);
            proof {
                assert(fv.subrange(0, fv.len() as int) =~= fv);
                assert(out@ =~= old(out)@ + spec_ser_json(v@));
            }
        },
    }
}

/// The bytes from position `i` spell exactly the wire form of `v`
/// (and a number token ends there: the next byte, if any, cannot
/// extend it).
pub open spec fn parse_hyp(s: Seq<u8>, i: int, v: JsonV) -> bool {
    &&& json_wf(v)
    &&& 0 <= i
    &&& i + spec_ser_json(v).len() <= s.len()
    &&& s.subrange(i, i + spec_ser_json(v).len()) == spec_ser_json(v)
    &&& v matches JsonV::Num(_) ==> i + spec_ser_json(v).len() == s.len()
        || !crate::decimal::is_num_byte(s[i + spec_ser_json(v).len()])
}

fn skip_ws(s: &Vec<u8>, i: usize) -> (j: usize)
    requires
        i <= s@.len(),
    ensures
        i <= j <= s@.len(),
        forall|k: int| i <= k < j ==> is_ws(#[trigger] s@[k]),
        j == s@.len() || !is_ws(s@[j as int]),
{
    let n = s.len();
    let mut j = i;
    while j < n && (s[j] == 0x20 || s[j] == 0x09 || s[j] == 0x0a || s[j] == 0x0d)
        invariant
            i <= j <= n,
            n == s@.len(),
            forall|k: int| i <= k < j ==> is_ws(#[trigger] s@[k]),
        decreases n - j,
    {
        j = j + 1;
    }
    j
}

fn parse_string_body(s: &Vec<u8>, i: usize) -> (r: Option<(Vec<u8>, usize)>)
    requires
        i <= s@.len(),
    ensures
        r matches Some(oj) ==> plain_str(oj.0@) && i < oj.1 <= s@.len(),
        forall|t: Seq<u8>| plain_str(t) && i + t.len() + 2 <= s@.len() && s@.subrange(
            i as int, i + t.len() + 2) == seq![0x22u8] + t + seq![0x22u8]
            ==> (r matches Some(oj) && oj.0@ == t && oj.1 == i + t.len() + 2),
{
    let n = s.len();
    if i >= n || s[i] != 0x22 {
        proof {
            assert forall|t: Seq<u8>| plain_str(t) && i + t.len() + 2 <= s@.len()
                && s@.subrange(i as int, i + t.len() + 2) == seq![0x22u8] + t + seq![0x22u8]
                implies false by {
                assert(s@[i as int] == (seq![0x22u8] + t + seq![0x22u8])[0]);
            };
        }
        return None;
    }
    let mut out: Vec<u8> = Vec::new();
    let mut j = i + 1;
    while j < n && s[j] >= 0x20 && s[j] != 0x22 && s[j] != 0x5c
        invariant
            i < j <= n,
            n == s@.len(),
            plain_str(out@),
            out@ == s@.subrange(i + 1, j as int),
            forall|k: int| i + 1 <= k < j ==> is_plain_str_byte(#[trigger] s@[k]),
        decreases n - j,
    {
        out.push(s[j]);
        proof {
            assert(out@ =~= s@.subrange(i + 1, j + 1));
        }
        j = j + 1;
    }
    proof {
        assert forall|t: Seq<u8>| plain_str(t) && i + t.len() + 2 <= s@.len() && s@.subrange(
            i as int, i + t.len() + 2) == seq![0x22u8] + t + seq![0x22u8]
            implies j as int == i + 1 + t.len() && s@[j as int] == 0x22 && j < n by {
            let w = seq![0x22u8] + t + seq![0x22u8];
            assert forall|m: int| 0 <= m < t.len() implies is_plain_str_byte(
                #[trigger] s@[i + 1 + m]) by {
                assert(s@[i + 1 + m] == w[1 + m]);
                assert(w[1 + m] == t[m]);
            };
            assert(s@[i + 1 + t.len()] == w[1 + t.len() as int]);
            assert(s@[i + 1 + t.len()] == 0x22);
            if (j as int) < i + 1 + t.len() {
                assert(is_plain_str_byte(s@[i + 1 + (j as int - i - 1)]));
                assert(is_plain_str_byte(s@[j as int]));
                assert(false);
            }
            if (j as int) > i + 1 + t.len() {
                assert(is_plain_str_byte(s@[i + 1 + t.len()]));
                assert(false);
            }
        };
    }
    if j < n && s[j] == 0x22 {
        proof {
            assert forall|t: Seq<u8>| plain_str(t) && i + t.len() + 2 <= s@.len() && s@.subrange(
                i as int, i + t.len() + 2) == seq![0x22u8] + t + seq![0x22u8]
                implies out@ == t by {
                let w = seq![0x22u8] + t + seq![0x22u8];
                assert(j as int == i + 1 + t.len());
                assert(out@.len() == t.len());
                assert forall|m: int| 0 <= m < t.len() implies out@[m] == t[m] by {
                    assert(out@[m] == s@[i + 1 + m]);
                    assert(s@[i + 1 + m] == w[1 + m]);
                    assert(w[1 + m] == t[m]);
                };
                assert(out@ =~= t);
            };
        }
        Some((out, j + 1))
    } else {
        None
    }
}

fn parse_number_at(s: &Vec<u8>, i: usize) -> (r: Option<(Decimal, usize)>)
    requires
        i <= s@.len(),
    ensures
        r matches Some(dj) ==> dj.0.wf() && i < dj.1 <= s@.len(),
        forall|d: Decimal| d.wf() && i + spec_ser_dec(d).len() <= s@.len() && s@.subrange(
            i as int, i + spec_ser_dec(d).len()) == spec_ser_dec(d) && (i + spec_ser_dec(d).len()
            == s@.len() || !crate::decimal::is_num_byte(s@[i + spec_ser_dec(d).len()]))
            ==> (r matches Some(dj) && dj.0 == d && dj.1 == i + spec_ser_dec(d).len()),
{
    let n = s.len();
    let mut buf: Vec<u8> = Vec::new();
    let mut j = i;
    while j < n && (s[j] == 0x2d || s[j] == 0x2e || (0x30 <= s[j] && s[j] <= 0x39))
        invariant
            i <= j <= n,
            n == s@.len(),
            buf@ == s@.subrange(i as int, j as int),
            forall|k: int| i <= k < j ==> crate::decimal::is_num_byte(#[trigger] s@[k]),
        decreases n - j,
    {
        buf.push(s[j]);
        proof {
            assert(buf@ =~= s@.subrange(i as int, j + 1));
        }
        j = j + 1;
    }
    proof {
        assert forall|d: Decimal| d.wf() && i + spec_ser_dec(d).len() <= s@.len() && s@.subrange(
            i as int, i + spec_ser_dec(d).len()) == spec_ser_dec(d) && (i + spec_ser_dec(d).len()
            == s@.len() || !crate::decimal::is_num_byte(s@[i + spec_ser_dec(d).len()]))
            implies j as int == i + spec_ser_dec(d).len() && buf@ == spec_ser_dec(d) by {
            crate::decimal::lemma_ser_dec_shape(d);
            let ed = i + spec_ser_dec(d).len();
            assert forall|m: int| 0 <= m < spec_ser_dec(d).len() implies crate::decimal::is_num_byte(
                #[trigger] s@[i + m]) by {
                assert(s@[i + m] == spec_ser_dec(d)[m]);
            };
            if (j as int) < ed {
                assert(crate::decimal::is_num_byte(s@[i + (j as int - i)]));
                assert(crate::decimal::is_num_byte(s@[j as int]));
                assert(false);
            }
            if (j as int) > ed {
                assert(crate::decimal::is_num_byte(s@[ed]));
                assert(false);
            }
            assert(buf@ =~= spec_ser_dec(d));
        };
    }
    if buf.len() == 0 {
        return None;
    }
    match Decimal::from_bytes(&buf) {
        Some(d) => Some((d, j)),
        None => None,
    }
}

fn parse_value(s: &Vec<u8>, i: usize) -> (r: Option<(Json, usize)>)
    requires
        i <= s@.len(),
    ensures
        r matches Some(wj) ==> json_wf(wj.0@) && i < wj.1 <= s@.len(),
        forall|v: JsonV| parse_hyp(s@, i as int, v) ==> (r matches Some(wj) && wj.0@ == v
            && wj.1 == i + spec_ser_json(v).len()),
    decreases s@.len() - i, 1int,
{
    let n = s.len();
    let p = skip_ws(s, i);
    proof {
        assert forall|v: JsonV| parse_hyp(s@, i as int, v) implies p == i && s@[i as int]
            == spec_ser_json(v)[0] by {
            lemma_ser_json_facts(v);
            assert(s@[i as int] == spec_ser_json(v)[0]);
            if p > i {
                assert(is_ws(s@[i as int]));
            }
        };
    }
    if p >= n {
        proof {
            assert forall|v: JsonV| parse_hyp(s@, i as int, v) implies false by {
                lemma_ser_json_facts(v);
            };
        }
        return None;
    }
    let b = s[p];
    if b == 0x6e {
        if n - p >= 4 && s[p + 1] == 0x75 && s[p + 2] == 0x6c && s[p + 3] == 0x6c {
            proof {
                lemma_parse_scalar_case(s@, i as int, p as int, b);
            }
            Some((Json::Null, p + 4))
        } else {
            proof {
                lemma_parse_scalar_case(s@, i as int, p as int, b);
                assert forall|v: JsonV| parse_hyp(s@, i as int, v) implies false by {
                    assert(v matches JsonV::Null);
                    assert(spec_ser_json(v) == seq![0x6eu8, 0x75u8, 0x6cu8, 0x6cu8]);
                };
            }
            None
        }
    } else if b == 0x74 {
        if n - p >= 4 && s[p + 1] == 0x72 && s[p + 2] == 0x75 && s[p + 3] == 0x65 {
            proof {
                lemma_parse_scalar_case(s@, i as int, p as int, b);
            }
            Some((Json::Bool(true), p + 4))
        } else {
            proof {
                lemma_parse_scalar_case(s@, i as int, p as int, b);
            }
            None
        }
    } else if b == 0x66 {
        if n - p >= 5 && s[p + 1] == 0x61 && s[p + 2] == 0x6c && s[p + 3] == 0x73 && s[p + 4]
            == 0x65 {
            proof {
                lemma_parse_scalar_case(s@, i as int, p as int, b);
            }
            Some((Json::Bool(false), p + 5))
        } else {
            proof {
                lemma_parse_scalar_case(s@, i as int, p as int, b);
            }
            None
        }
    } else if b == 0x22 {
        let parsed = parse_string_body(s, p);
        proof {
            assert forall|v: JsonV| parse_hyp(s@, i as int, v) implies (parsed matches Some(oj)
                && v == JsonV::Str(oj.0@) && oj.1 == i + spec_ser_json(v).len()) by {
                lemma_parse_scalar_case(s@, i as int, p as int, b);
                let t = v->Str_0;
                assert(s@.subrange(i as int, i + t.len() + 2) == seq![0x22u8] + t + seq![0x22u8]);
            };
        }
        match parsed {
            Some((out, j)) => Some((Json::Str(out), j)),
            None => None,
        }
    } else if b == 0x2d || (0x30 <= b && b <= 0x39) {
        let parsed = parse_number_at(s, p);
        proof {
            assert forall|v: JsonV| parse_hyp(s@, i as int, v) implies (parsed matches Some(dj)
                && v == JsonV::Num(dj.0) && dj.1 == i + spec_ser_json(v).len()) by {
                lemma_parse_scalar_case(s@, i as int, p as int, b);
                let d = v->Num_0;
                assert(spec_ser_json(v) == spec_ser_dec(d));
            };
        }
        match parsed {
            Some((d, j)) => Some((Json::Num(d), j)),
            None => None,
        }
    } else if b == 0x5b {
        parse_array(s, p)
    } else if b == 0x7b {
        parse_object(s, p)
    } else {
        proof {
            assert forall|v: JsonV| parse_hyp(s@, i as int, v) implies false by {
                lemma_ser_json_facts(v);
            };
        }
        None
    }
}

/// Under the parse hypothesis, a leading byte pins the variant down.
proof fn lemma_parse_scalar_case(s: Seq<u8>, i: int, p: int, b: u8)
    requires
        0 <= i <= p < s.len(),
        b == s[p],
        forall|v: JsonV| parse_hyp(s, i, v) ==> p == i && s[i] == #[trigger] spec_ser_json(v)[0],
    ensures
        b == 0x6e ==> forall|v: JsonV| parse_hyp(s, i, v) ==> v matches JsonV::Null,
        b == 0x74 ==> forall|v: JsonV| parse_hyp(s, i, v) ==> v == JsonV::Bool(true),
        b == 0x66 ==> forall|v: JsonV| parse_hyp(s, i, v) ==> v == JsonV::Bool(false),
        b == 0x22 ==> forall|v: JsonV| parse_hyp(s, i, v) ==> v matches JsonV::Str(_),
        (b == 0x2d || is_digit(b)) ==> forall|v: JsonV| parse_hyp(s, i, v) ==> v matches JsonV::Num(_),
        b == 0x5b ==> forall|v: JsonV| parse_hyp(s, i, v) ==> v matches JsonV::Arr(_),
        b == 0x7b ==> forall|v: JsonV| parse_hyp(s, i, v) ==> v matches JsonV::Obj(_),
    decreases 0int,
{
    assert forall|v: JsonV| parse_hyp(s, i, v) implies (spec_ser_json(v)[0] == b
        && (v matches JsonV::Null ==> b == 0x6e) && (v matches JsonV::Bool(t) ==> b == (
        if t { 0x74u8 } else { 0x66u8 })) && (v matches JsonV::Str(_) ==> b == 0x22) && (
        v matches JsonV::Num(_) ==> (b == 0x2d || is_digit(b))) && (v matches JsonV::Arr(_)
        ==> b == 0x5b) && (v matches JsonV::Obj(_) ==> b == 0x7b)) by {
        lemma_ser_json_facts(v);
    };
}

proof fn lemma_hyp_arr(s: Seq<u8>, i: int, v: JsonV)
    requires
        parse_hyp(s, i, v),
        0 <= i < s.len(),
        s[i] == 0x5b,
    ensures
        v matches JsonV::Arr(_),
        s[i + spec_ser_json(v).len() - 1] == 0x5d,
{
    lemma_ser_json_facts(v);
    assert(s[i] == spec_ser_json(v)[0]);
    let ser = spec_ser_json(v);
    assert(s[i + ser.len() - 1] == ser[ser.len() - 1]);
}

proof fn lemma_hyp_obj(s: Seq<u8>, i: int, v: JsonV)
    requires
        parse_hyp(s, i, v),
        0 <= i < s.len(),
        s[i] == 0x7b,
    ensures
        v matches JsonV::Obj(_),
        s[i + spec_ser_json(v).len() - 1] == 0x7d,
{
    lemma_ser_json_facts(v);
    assert(s[i] == spec_ser_json(v)[0]);
    let ser = spec_ser_json(v);
    assert(s[i + ser.len() - 1] == ser[ser.len() - 1]);
}

spec fn arr_state(s: Seq<u8>, i: int, v: JsonV, k: int, j: int) -> bool {
    let itms = v->Arr_0;
    let rest = spec_ser_items_from(itms, k);
    &&& v matches JsonV::Arr(_)
    &&& 0 <= k < itms.len()
    &&& j + rest.len() + 1 == i + spec_ser_json(v).len()
    &&& s.subrange(j, j + rest.len()) == rest
}

fn parse_array(s: &Vec<u8>, i: usize) -> (r: Option<(Json, usize)>)
    requires
        i < s@.len(),
        s@[i as int] == 0x5b,
    ensures
        r matches Some(wj) ==> json_wf(wj.0@) && i < wj.1 <= s@.len(),
        forall|v: JsonV| parse_hyp(s@, i as int, v) ==> (r matches Some(wj) && wj.0@ == v
            && wj.1 == i + spec_ser_json(v).len()),
    decreases s@.len() - i, 0int,
{
    let n = s.len();
    proof {
        assert forall|v: JsonV| parse_hyp(s@, i as int, v) implies v matches JsonV::Arr(_)
            && s@[i + spec_ser_json(v).len() - 1] == 0x5d && (v->Arr_0.len() > 0
            ==> spec_ser_items(v->Arr_0) == spec_ser_items_from(v->Arr_0, 0)
                && !is_ws(s@[i + 1]) && s@[i + 1] != 0x5d) && (v->Arr_0.len() == 0
            ==> spec_ser_json(v).len() == 2 && s@[i + 1] == 0x5d) by {
            lemma_ser_json_facts(v);
            let ser = spec_ser_json(v);
            assert(s@[i as int] == ser[0]);
            match v {
                JsonV::Arr(itms) => {
                    assert(s@[i + ser.len() - 1] == ser[ser.len() - 1]);
                    lemma_ser_items_from_equiv(itms);
                    if itms.len() > 0 {
                        lemma_wf_arr_elem(itms, 0);
                        lemma_ser_json_facts(itms[0]);
                        assert(spec_ser_items_from(itms, 0)[0] == spec_ser_json(itms[0])[0]);
                        assert(ser[1] == spec_ser_items_from(itms, 0)[0]);
                        assert(s@[i + 1] == ser[1]);
                    } else {
                        assert(spec_ser_items(itms) =~= Seq::<u8>::empty());
                        assert(ser =~= seq![0x5bu8, 0x5du8]);
                        assert(s@[i + 1] == ser[1]);
                    }
                },
                _ => {
                    assert(false);
                },
            }
        };
    }
    let mut items: Vec<Json> = Vec::new();
    let j0 = skip_ws(s, i + 1);
    if j0 < n && s[j0] == 0x5d {
        proof {
            assert forall|v: JsonV| parse_hyp(s@, i as int, v) implies Json::Arr(items)@ == v
                && j0 + 1 == i + spec_ser_json(v).len() by {
                lemma_hyp_arr(s@, i as int, v);
                if v->Arr_0.len() > 0 {
                    assert(j0 == i + 1);
                    assert(false);
                }
                assert(j0 == i + 1);
                let w2 = Json::Arr(items)@;
                assert(v == JsonV::Arr(v->Arr_0));
                assert((w2->Arr_0).len() == 0);
                assert(w2->Arr_0 =~= v->Arr_0);
                assert(w2 == v);
            };
            assert(json_wf(Json::Arr(items)@));
        }
        return Some((Json::Arr(items), j0 + 1));
    }
    proof {
        assert forall|v: JsonV| parse_hyp(s@, i as int, v) implies v->Arr_0.len() > 0 && j0 == i
            + 1 && arr_state(s@, i as int, v, 0, i + 1) by {
            lemma_hyp_arr(s@, i as int, v);
            let itms = v->Arr_0;
            if itms.len() == 0 {
                assert(j0 == i + 1);
                assert(s@[j0 as int] == 0x5d && j0 < n);
                assert(false);
            }
            assert(j0 == i + 1);
            let ser = spec_ser_json(v);
            let rest = spec_ser_items_from(itms, 0);
            assert(ser == seq![0x5bu8] + spec_ser_items(itms) + seq![0x5du8]);
            assert(ser.len() == rest.len() + 2);
            assert(s@.subrange(i + 1, i + 1 + rest.len()) =~= rest) by {
                assert forall|m: int| 0 <= m < rest.len() implies s@.subrange(
                    i + 1, i + 1 + rest.len())[m] == rest[m] by {
                    assert(s@[i + 1 + m] == ser[1 + m]);
                    assert(ser[1 + m] == rest[m]);
                };
            };
        };
    }
    let mut j = j0;
    loop
        invariant
            i < j <= n,
            n == s@.len(),
            i < n,
            s@[i as int] == 0x5b,
            forall|m: int| 0 <= m < items@.len() ==> json_wf(#[trigger] items@[m]@),
            forall|v: JsonV| parse_hyp(s@, i as int, v) ==> ((forall|m: int|
                0 <= m < items@.len() ==> #[trigger] items@[m]@ == v->Arr_0[m]) && arr_state(
                s@, i as int, v, items@.len() as int, j as int)),
        decreases n - j,
    {
        let ghost k = items@.len() as int;
        proof {
            assert forall|v: JsonV| parse_hyp(s@, i as int, v) implies parse_hyp(
                s@, j as int, v->Arr_0[k]) && spec_ser_items_from(v->Arr_0, k).subrange(
                0, spec_ser_json(v->Arr_0[k]).len() as int) == spec_ser_json(v->Arr_0[k]) by {
                let itms = v->Arr_0;
                let rest = spec_ser_items_from(itms, k);
                let e = spec_ser_json(itms[k]);
                assert(json_wf(JsonV::Arr(itms)));
                lemma_wf_arr_elem(itms, k);
                if k == itms.len() - 1 {
                    assert(rest == e);
                } else {
                    assert(rest == e + seq![0x2cu8] + spec_ser_items_from(itms, k + 1));
                }
                assert(rest.subrange(0, e.len() as int) =~= e);
                assert(s@.subrange(j as int, j + e.len()) =~= e) by {
                    assert forall|m: int| 0 <= m < e.len() implies s@[j + m] == e[m] by {
                        assert(s@[j + m] == rest[m]);
                    };
                };
                if itms[k] matches JsonV::Num(_) {
                    if k == itms.len() - 1 {
                        lemma_hyp_arr(s@, i as int, v);
                        assert(j + e.len() == i + spec_ser_json(v).len() - 1);
                        assert(s@[j + e.len()] == 0x5d);
                    } else {
                        assert(s@[j + e.len()] == rest[e.len() as int]);
                        assert(s@[j + e.len()] == 0x2c);
                    }
                }
            };
        }
        let parsed = parse_value(s, j);
        let (w, j2) = match parsed {
            Some(wj) => wj,
            None => {
                proof {
                    assert forall|v: JsonV| parse_hyp(s@, i as int, v) implies false by {};
                }
                return None;
            },
        };
        items.push(w);
        let j3 = skip_ws(s, j2);
        proof {
            assert forall|v: JsonV| parse_hyp(s@, i as int, v) implies j3 == j2 && j2 < n && (
                s@[j2 as int] == 0x2c || s@[j2 as int] == 0x5d) && (s@[j2 as int] == 0x2c
                <==> k < v->Arr_0.len() - 1) && w@ == v->Arr_0[k] && j2 == j + spec_ser_json(
                v->Arr_0[k]).len() by {
                let itms = v->Arr_0;
                let rest = spec_ser_items_from(itms, k);
                let e = spec_ser_json(itms[k]);
                assert(w@ == itms[k] && j2 == j + e.len());
                if k == itms.len() - 1 {
                    lemma_hyp_arr(s@, i as int, v);
                    assert(rest == e);
                    assert(j2 == i + spec_ser_json(v).len() - 1);
                    assert(s@[j2 as int] == 0x5d);
                } else {
                    assert(rest == e + seq![0x2cu8] + spec_ser_items_from(itms, k + 1));
                    assert(s@[j2 as int] == rest[e.len() as int]);
                    assert(s@[j2 as int] == 0x2c);
                }
                if j3 > j2 {
                    assert(is_ws(s@[j2 as int]));
                }
            };
        }
        if j3 < n && s[j3] == 0x2c {
            proof {
                assert forall|v: JsonV| parse_hyp(s@, i as int, v) implies ((forall|m: int|
                    0 <= m < items@.len() ==> #[trigger] items@[m]@ == v->Arr_0[m]) && arr_state(
                    s@, i as int, v, items@.len() as int, j3 + 1)) by {
                    let itms = v->Arr_0;
                    let rest = spec_ser_items_from(itms, k);
                    let e = spec_ser_json(itms[k]);
                    assert(k < itms.len() - 1);
                    let rest2 = spec_ser_items_from(itms, k + 1);
                    assert(rest == e + seq![0x2cu8] + rest2);
                    assert(s@.subrange(j3 + 1, j3 + 1 + rest2.len()) =~= rest2) by {
                        assert forall|m: int| 0 <= m < rest2.len() implies s@[j3 + 1 + m]
                            == rest2[m] by {
                            assert(s@[j3 + 1 + m] == rest[e.len() + 1 + m]);
                        };
                    };
                };
            }
            j = j3 + 1;
        } else if j3 < n && s[j3] == 0x5d {
            proof {
                assert forall|v: JsonV| parse_hyp(s@, i as int, v) implies Json::Arr(items)@ == v
                    && j3 + 1 == i + spec_ser_json(v).len() by {
                    lemma_hyp_arr(s@, i as int, v);
                    let itms = v->Arr_0;
                    assert(w@ == itms[k]);
                    assert(k == itms.len() - 1);
                    assert(items@.len() == itms.len());
                    let w2 = Json::Arr(items)@;
                    assert(v == JsonV::Arr(itms));
                    assert((w2->Arr_0).len() == items@.len());
                    assert forall|m: int| 0 <= m < items@.len() implies (w2->Arr_0)[m]
                        == itms[m] by {
                        assert((w2->Arr_0)[m] == items@[m]@);
                    };
                    assert(w2->Arr_0 =~= itms);
                    assert(w2 == v);
                };
                assert(json_wf(Json::Arr(items)@)) by {
                    let w2 = Json::Arr(items)@;
                    assert forall|m: int| 0 <= m < (w2->Arr_0).len() implies json_wf(
                        #[trigger] (w2->Arr_0)[m]) by {
                        assert((w2->Arr_0)[m] == items@[m]@);
                    };
                };
            }
            return Some((Json::Arr(items), j3 + 1));
        } else {
            proof {
                assert forall|v: JsonV| parse_hyp(s@, i as int, v) implies false by {};
            }
            return None;
        }
    }
}

spec fn obj_state(s: Seq<u8>, i: int, v: JsonV, k: int, j: int) -> bool {
    let fs = v->Obj_0;
    let rest = spec_ser_fields_from(fs, k);
    &&& v matches JsonV::Obj(_)
    &&& 0 <= k < fs.len()
    &&& j + rest.len() + 1 == i + spec_ser_json(v).len()
    &&& s.subrange(j, j + rest.len()) == rest
}

fn parse_object(s: &Vec<u8>, i: usize) -> (r: Option<(Json, usize)>)
    requires
        i < s@.len(),
        s@[i as int] == 0x7b,
    ensures
        r matches Some(wj) ==> json_wf(wj.0@) && i < wj.1 <= s@.len(),
        forall|v: JsonV| parse_hyp(s@, i as int, v) ==> (r matches Some(wj) && wj.0@ == v
            && wj.1 == i + spec_ser_json(v).len()),
    decreases s@.len() - i, 0int,
{
    let n = s.len();
    proof {
        assert forall|v: JsonV| parse_hyp(s@, i as int, v) implies v matches JsonV::Obj(_)
            && s@[i + spec_ser_json(v).len() - 1] == 0x7d && (v->Obj_0.len() > 0
            ==> spec_ser_fields(v->Obj_0) == spec_ser_fields_from(v->Obj_0, 0) && s@[i + 1]
                == 0x22) && (v->Obj_0.len() == 0 ==> spec_ser_json(v).len() == 2 && s@[i + 1]
            == 0x7d) by {
            lemma_ser_json_facts(v);
            let ser = spec_ser_json(v);
            assert(s@[i as int] == ser[0]);
            match v {
                JsonV::Obj(fs) => {
                    assert(s@[i + ser.len() - 1] == ser[ser.len() - 1]);
                    lemma_ser_fields_from_equiv(fs);
                    if fs.len() > 0 {
                        assert(spec_ser_fields_from(fs, 0)[0] == spec_ser_field(fs[0])[0]);
                        assert(spec_ser_field(fs[0])[0] == 0x22);
                        assert(ser[1] == spec_ser_fields_from(fs, 0)[0]);
                        assert(s@[i + 1] == ser[1]);
                    } else {
                        assert(spec_ser_fields(fs) =~= Seq::<u8>::empty());
                        assert(ser =~= seq![0x7bu8, 0x7du8]);
                        assert(s@[i + 1] == ser[1]);
                    }
                },
                _ => {
                    assert(false);
                },
            }
        };
    }
    let mut fields: Vec<(Vec<u8>, Json)> = Vec::new();
    let j0 = skip_ws(s, i + 1);
    if j0 < n && s[j0] == 0x7d {
        proof {
            assert forall|v: JsonV| parse_hyp(s@, i as int, v) implies Json::Obj(fields)@ == v
                && j0 + 1 == i + spec_ser_json(v).len() by {
                lemma_hyp_obj(s@, i as int, v);
                if v->Obj_0.len() > 0 {
                    assert(j0 == i + 1);
                    assert(false);
                }
                assert(j0 == i + 1);
                let w2 = Json::Obj(fields)@;
                assert(v == JsonV::Obj(v->Obj_0));
                assert((w2->Obj_0).len() == 0);
                assert(w2->Obj_0 =~= v->Obj_0);
                assert(w2 == v);
            };
            assert(json_wf(Json::Obj(fields)@));
        }
        return Some((Json::Obj(fields), j0 + 1));
    }
    proof {
        assert forall|v: JsonV| parse_hyp(s@, i as int, v) implies v->Obj_0.len() > 0 && j0 == i
            + 1 && obj_state(s@, i as int, v, 0, i + 1) by {
            lemma_hyp_obj(s@, i as int, v);
            let fs = v->Obj_0;
            if fs.len() == 0 {
                assert(j0 == i + 1);
                assert(s@[j0 as int] == 0x7d && j0 < n);
                assert(false);
            }
            assert(j0 == i + 1);
            let ser = spec_ser_json(v);
            let rest = spec_ser_fields_from(fs, 0);
            assert(ser == seq![0x7bu8] + spec_ser_fields(fs) + seq![0x7du8]);
            assert(ser.len() == rest.len() + 2);
            assert(s@.subrange(i + 1, i + 1 + rest.len()) =~= rest) by {
                assert forall|m: int| 0 <= m < rest.len() implies s@.subrange(
                    i + 1, i + 1 + rest.len())[m] == rest[m] by {
                    assert(s@[i + 1 + m] == ser[1 + m]);
                    assert(ser[1 + m] == rest[m]);
                };
            };
        };
    }
    let mut j = j0;
    loop
        invariant
            i < j <= n,
            n == s@.len(),
            i < n,
            s@[i as int] == 0x7b,
            forall|m: int| 0 <= m < fields@.len() ==> plain_str((#[trigger] fields@[m]).0@)
                && json_wf(fields@[m].1@),
            forall|v: JsonV| parse_hyp(s@, i as int, v) ==> ((forall|m: int|
                0 <= m < fields@.len() ==> ((#[trigger] fields@[m]).0@, fields@[m].1@)
                == v->Obj_0[m]) && obj_state(s@, i as int, v, fields@.len() as int, j as int)),
        decreases n - j,
    {
        let ghost k = fields@.len() as int;
        proof {
            assert forall|v: JsonV| parse_hyp(s@, i as int, v) implies ({
                let fs = v->Obj_0;
                let key = fs[k].0;
                let e = spec_ser_json(fs[k].1);
                &&& plain_str(key)
                &&& j + key.len() + 3 + e.len() <= n
                &&& s@.subrange(j as int, j + key.len() + 2) == seq![0x22u8] + key + seq![0x22u8]
                &&& s@[j + key.len() + 2] == 0x3a
                &&& parse_hyp(s@, (j + key.len() + 3) as int, fs[k].1)
            }) by {
                let fs = v->Obj_0;
                let rest = spec_ser_fields_from(fs, k);
                let fld = spec_ser_field(fs[k]);
                let key = fs[k].0;
                let e = spec_ser_json(fs[k].1);
                assert(json_wf(JsonV::Obj(fs)));
                lemma_wf_obj_elem(fs, k);
                if k == fs.len() - 1 {
                    assert(rest == fld);
                } else {
                    assert(rest == fld + seq![0x2cu8] + spec_ser_fields_from(fs, k + 1));
                }
                assert(fld == seq![0x22u8] + key + seq![0x22u8, 0x3au8] + e);
                assert forall|m: int| 0 <= m < fld.len() implies s@[j + m] == fld[m] by {
                    assert(s@[j + m] == rest[m]);
                };
                assert(s@.subrange(j as int, j + key.len() + 2) =~= seq![0x22u8] + key
                    + seq![0x22u8]);
                assert(s@[j + key.len() + 2] == fld[key.len() as int + 2]);
                assert(s@.subrange(j + key.len() + 3, j + key.len() + 3 + e.len()) =~= e) by {
                    assert forall|m: int| 0 <= m < e.len() implies s@[j + key.len() + 3 + m]
                        == e[m] by {
                        assert(s@[j + key.len() + 3 + m] == fld[key.len() + 3 + m]);
                    };
                };
                if fs[k].1 matches JsonV::Num(_) {
                    if k == fs.len() - 1 {
                        lemma_hyp_obj(s@, i as int, v);
                        assert(j + fld.len() == i + spec_ser_json(v).len() - 1);
                        assert(s@[j + fld.len()] == 0x7d);
                    } else {
                        assert(s@[j + fld.len()] == rest[fld.len() as int]);
                        assert(s@[j + fld.len()] == 0x2c);
                    }
                }
            };
        }
        let j0b = skip_ws(s, j);
        proof {
            assert forall|v: JsonV| parse_hyp(s@, i as int, v) implies j0b == j by {
                let fs = v->Obj_0;
                let rest = spec_ser_fields_from(fs, k);
                assert(rest[0] == spec_ser_field(fs[k])[0]);
                assert(spec_ser_field(fs[k])[0] == 0x22);
                assert(s@[j as int] == rest[0]);
                if j0b > j {
                    assert(is_ws(s@[j as int]));
                }
            };
        }
        let key_parsed = parse_string_body(s, j0b);
        let (key, j1) = match key_parsed {
            Some(kj) => kj,
            None => {
                proof {
                    assert forall|v: JsonV| parse_hyp(s@, i as int, v) implies false by {};
                }
                return None;
            },
        };
        let j2 = skip_ws(s, j1);
        proof {
            assert forall|v: JsonV| parse_hyp(s@, i as int, v) implies j2 == j1 && j1 < n
                && s@[j1 as int] == 0x3a by {
                let fs = v->Obj_0;
                assert(key@ == fs[k].0 && j1 == j + fs[k].0.len() + 2);
                if j2 > j1 {
                    assert(is_ws(s@[j1 as int]));
                }
            };
        }
        if !(j2 < n && s[j2] == 0x3a) {
            proof {
                assert forall|v: JsonV| parse_hyp(s@, i as int, v) implies false by {};
            }
            return None;
        }
        let vp = parse_value(s, j2 + 1);
        let (w, j3) = match vp {
            Some(wj) => wj,
            None => {
                proof {
                    assert forall|v: JsonV| parse_hyp(s@, i as int, v) implies false by {};
                }
                return None;
            },
        };
        fields.push((key, w));
        let j4 = skip_ws(s, j3);
        proof {
            assert forall|v: JsonV| parse_hyp(s@, i as int, v) implies j4 == j3 && j3 < n && (
                s@[j3 as int] == 0x2c || s@[j3 as int] == 0x7d) && (s@[j3 as int] == 0x2c
                <==> k < v->Obj_0.len() - 1) && w@ == v->Obj_0[k].1 && key@ == v->Obj_0[k].0
                && j3 == j + spec_ser_field(v->Obj_0[k]).len() by {
                let fs = v->Obj_0;
                let rest = spec_ser_fields_from(fs, k);
                let fld = spec_ser_field(fs[k]);
                assert(key@ == fs[k].0);
                assert(w@ == fs[k].1);
                assert(j3 == j + fld.len());
                if k == fs.len() - 1 {
                    lemma_hyp_obj(s@, i as int, v);
                    assert(rest == fld);
                    assert(j3 == i + spec_ser_json(v).len() - 1);
                    assert(s@[j3 as int] == 0x7d);
                } else {
                    assert(rest == fld + seq![0x2cu8] + spec_ser_fields_from(fs, k + 1));
                    assert(s@[j3 as int] == rest[fld.len() as int]);
                    assert(s@[j3 as int] == 0x2c);
                }
                if j4 > j3 {
                    assert(is_ws(s@[j3 as int]));
                }
            };
        }
        if j4 < n && s[j4] == 0x2c {
            proof {
                assert forall|v: JsonV| parse_hyp(s@, i as int, v) implies ((forall|m: int|
                    0 <= m < fields@.len() ==> ((#[trigger] fields@[m]).0@, fields@[m].1@)
                    == v->Obj_0[m]) && obj_state(s@, i as int, v, fields@.len() as int, j4 + 1))
                    by {
                    let fs = v->Obj_0;
                    let rest = spec_ser_fields_from(fs, k);
                    let fld = spec_ser_field(fs[k]);
                    assert(k < fs.len() - 1);
                    let rest2 = spec_ser_fields_from(fs, k + 1);
                    assert(rest == fld + seq![0x2cu8] + rest2);
                    assert(s@.subrange(j4 + 1, j4 + 1 + rest2.len()) =~= rest2) by {
                        assert forall|m: int| 0 <= m < rest2.len() implies s@[j4 + 1 + m]
                            == rest2[m] by {
                            assert(s@[j4 + 1 + m] == rest[fld.len() + 1 + m]);
                        };
                    };
                };
            }
            j = j4 + 1;
        } else if j4 < n && s[j4] == 0x7d {
            proof {
                assert forall|v: JsonV| parse_hyp(s@, i as int, v) implies Json::Obj(fields)@
                    == v && j4 + 1 == i + spec_ser_json(v).len() by {
                    lemma_hyp_obj(s@, i as int, v);
                    let fs = v->Obj_0;
                    assert(key@ == fs[k].0 && w@ == fs[k].1);
                    assert(k == fs.len() - 1);
                    assert(fields@.len() == fs.len());
                    let w2 = Json::Obj(fields)@;
                    assert(v == JsonV::Obj(fs));
                    assert((w2->Obj_0).len() == fields@.len());
                    assert forall|m: int| 0 <= m < fields@.len() implies (w2->Obj_0)[m]
                        == fs[m] by {
                        assert((w2->Obj_0)[m] == (fields@[m].0@, fields@[m].1@));
                    };
                    assert(w2->Obj_0 =~= fs);
                    assert(w2 == v);
                };
                assert(json_wf(Json::Obj(fields)@)) by {
                    let w2 = Json::Obj(fields)@;
                    assert forall|m: int| 0 <= m < (w2->Obj_0).len() implies plain_str(
                        (#[trigger] (w2->Obj_0)[m]).0) && json_wf((w2->Obj_0)[m].1) by {
                        assert((w2->Obj_0)[m] == (fields@[m].0@, fields@[m].1@));
                    };
                };
            }
            return Some((Json::Obj(fields), j4 + 1));
        } else {
            proof {
                assert forall|v: JsonV| parse_hyp(s@, i as int, v) implies false by {};
            }
            return None;
        }
    }
}

/// Parses a whole response body: one JSON value, with nothing but
/// whitespace around it. A malformed or truncated body yields `None`,
/// and the wire form of any well-formed value parses back to exactly
/// that value.
pub fn parse_json(s: &Vec<u8>) -> (r: Option<Json>)
    ensures
        r matches Some(v) ==> json_wf(v@),
        forall|v: JsonV| json_wf(v) && s@ == spec_ser_json(v) ==> (r matches Some(w) && w@ == v),
{
    proof {
        assert forall|v: JsonV| json_wf(v) && s@ == spec_ser_json(v) implies parse_hyp(
            s@, 0, v) by {
            assert(s@.subrange(0, spec_ser_json(v).len() as int) =~= spec_ser_json(v));
        };
    }
    match parse_value(s, 0) {
        Some((w, j)) => {
            let j2 = skip_ws(s, j);
            if j2 == s.len() {
                Some(w)
            } else {
                proof {
                    assert forall|v: JsonV| json_wf(v) && s@ == spec_ser_json(v) implies false
                        by {
                        assert(j == spec_ser_json(v).len());
                    };
                }
                None
            }
        },
        None => {
            proof {
                assert forall|v: JsonV| json_wf(v) && s@ == spec_ser_json(v) implies false by {};
            }
            None
        },
    }
}

/// Serializes a value into its exact canonical wire form.
pub fn json_to_bytes(v: &Json) -> (r: Vec<u8>)
    requires
        json_wf(v@),
    ensures
        r@ == spec_ser_json(v@),
{
    let mut out: Vec<u8> = Vec::new();
    push_json(&mut out, v);
    proof {
        assert(out@ =~= spec_ser_json(v@));
    }
    out
}

} // verus!

verus! {

/// Whitespace the parser steps over between tokens.
pub open spec fn is_ws(b: u8) -> bool {
    b == 0x20 || b == 0x09 || b == 0x0a || b == 0x0d
}

/// The serialization of the items from position `k` on: the remaining
/// elements joined with commas, no leading comma.
pub open spec fn spec_ser_items_from(items: Seq<JsonV>, k: int) -> Seq<u8>
    decreases items.len() - k,
{
    if k < 0 || k >= items.len() {
        Seq::empty()
    } else if k == items.len() - 1 {
        spec_ser_json(items[k])
    } else {
        spec_ser_json(items[k]) + seq![0x2cu8] + spec_ser_items_from(items, k + 1)
    }
}

/// The serialization of the fields from position `k` on.
pub open spec fn spec_ser_fields_from(fields: Seq<(Seq<u8>, JsonV)>, k: int) -> Seq<u8>
    decreases fields.len() - k,
{
    if k < 0 || k >= fields.len() {
        Seq::empty()
    } else if k == fields.len() - 1 {
        spec_ser_field(fields[k])
    } else {
        spec_ser_field(fields[k]) + seq![0x2cu8] + spec_ser_fields_from(fields, k + 1)
    }
}

proof fn lemma_items_from_drop(items: Seq<JsonV>, k: int)
    requires
        items.len() >= 1,
        0 <= k <= items.len() - 1,
    ensures
        spec_ser_items_from(items, k) == spec_ser_items_from(items.drop_last(), k) + (
        if k <= items.len() - 2 {
            seq![0x2cu8]
        } else {
            Seq::<u8>::empty()
        }) + spec_ser_json(items.last()),
    decreases items.len() - k,
{
    let dl = items.drop_last();
    if k == items.len() - 1 {
        assert(spec_ser_items_from(dl, k) == Seq::<u8>::empty());
        assert(spec_ser_items_from(items, k) =~= Seq::<u8>::empty() + Seq::<u8>::empty()
            + spec_ser_json(items.last()));
    } else {
        lemma_items_from_drop(items, k + 1);
        assert(dl[k] == items[k]);
        if k == items.len() - 2 {
            assert(spec_ser_items_from(dl, k) == spec_ser_json(items[k]));
            assert(spec_ser_items_from(items, k + 1) =~= Seq::<u8>::empty() + Seq::<u8>::empty()
                + spec_ser_json(items.last()));
            assert(spec_ser_items_from(items, k) =~= spec_ser_items_from(dl, k) + seq![0x2cu8]
                + spec_ser_json(items.last()));
        } else {
            assert(spec_ser_items_from(dl, k) == spec_ser_json(items[k]) + seq![0x2cu8]
                + spec_ser_items_from(dl, k + 1));
            assert(spec_ser_items_from(items, k) =~= spec_ser_items_from(dl, k) + seq![0x2cu8]
                + spec_ser_json(items.last()));
        }
    }
}

/// Front-based and back-based item serializations agree.
pub proof fn lemma_ser_items_from_equiv(items: Seq<JsonV>)
    ensures
        spec_ser_items(items) == spec_ser_items_from(items, 0),
    decreases items.len(),
{
    if items.len() >= 2 {
        lemma_ser_items_from_equiv(items.drop_last());
        lemma_items_from_drop(items, 0);
    }
}

proof fn lemma_fields_from_drop(fields: Seq<(Seq<u8>, JsonV)>, k: int)
    requires
        fields.len() >= 1,
        0 <= k <= fields.len() - 1,
    ensures
        spec_ser_fields_from(fields, k) == spec_ser_fields_from(fields.drop_last(), k) + (
        if k <= fields.len() - 2 {
            seq![0x2cu8]
        } else {
            Seq::<u8>::empty()
        }) + spec_ser_field(fields.last()),
    decreases fields.len() - k,
{
    let dl = fields.drop_last();
    if k == fields.len() - 1 {
        assert(spec_ser_fields_from(dl, k) == Seq::<u8>::empty());
        assert(spec_ser_fields_from(fields, k) =~= Seq::<u8>::empty() + Seq::<u8>::empty()
            + spec_ser_field(fields.last()));
    } else {
        lemma_fields_from_drop(fields, k + 1);
        assert(dl[k] == fields[k]);
        if k == fields.len() - 2 {
            assert(spec_ser_fields_from(dl, k) == spec_ser_field(fields[k]));
            assert(spec_ser_fields_from(fields, k + 1) =~= Seq::<u8>::empty() + Seq::<u8>::empty()
                + spec_ser_field(fields.last()));
            assert(spec_ser_fields_from(fields, k) =~= spec_ser_fields_from(dl, k) + seq![0x2cu8]
                + spec_ser_field(fields.last()));
        } else {
            assert(spec_ser_fields_from(dl, k) == spec_ser_field(fields[k]) + seq![0x2cu8]
                + spec_ser_fields_from(dl, k + 1));
            assert(spec_ser_fields_from(fields, k) =~= spec_ser_fields_from(dl, k) + seq![0x2cu8]
                + spec_ser_field(fields.last()));
        }
    }
}

/// Front-based and back-based field serializations agree.
pub proof fn lemma_ser_fields_from_equiv(fields: Seq<(Seq<u8>, JsonV)>)
    ensures
        spec_ser_fields(fields) == spec_ser_fields_from(fields, 0),
    decreases fields.len(),
{
    if fields.len() >= 2 {
        lemma_ser_fields_from_equiv(fields.drop_last());
        lemma_fields_from_drop(fields, 0);
    }
}

/// The shape of a well-formed value's wire form: nonempty, and its
/// first byte names the variant.
pub proof fn lemma_ser_json_facts(v: JsonV)
    requires
        json_wf(v),
    ensures
        ({
            let s = spec_ser_json(v);
            &&& s.len() >= 1
            &&& v matches JsonV::Null ==> s == seq![0x6eu8, 0x75u8, 0x6cu8, 0x6cu8]
            &&& v matches JsonV::Bool(b) ==> s == (if b {
                seq![0x74u8, 0x72u8, 0x75u8, 0x65u8]
            } else {
                seq![0x66u8, 0x61u8, 0x6cu8, 0x73u8, 0x65u8]
            })
            &&& v matches JsonV::Num(d) ==> (s[0] == 0x2d || crate::decimal::is_digit(s[0]))
                && (forall|j: int| 0 <= j < s.len() ==> crate::decimal::is_num_byte(#[trigger] s[j]))
            &&& v matches JsonV::Str(t) ==> s[0] == 0x22 && s.len() == t.len() + 2
            &&& v matches JsonV::Arr(_) ==> s[0] == 0x5b && s.last() == 0x5d
            &&& v matches JsonV::Obj(_) ==> s[0] == 0x7b && s.last() == 0x7d
            &&& !is_ws(s[0])
        }),
{
    match v {
        JsonV::Num(d) => {
            crate::decimal::lemma_ser_dec_shape(d);
        },
        _ => {},
    }
}

} // verus!

//! A self-contained JSON model. Strings are UTF-8 byte sequences; numbers
//! are high-precision decimals (a 128-bit mantissa with a base-10 scale),
//! so that integer-valued floats and scientific notation convert exactly.
use vstd::prelude::*;

use crate::util::pow10;

verus! {

/// A decimal number `mantissa / 10^scale`.
#[derive(Debug, Clone, Copy, PartialEq, Eq, Structural)]
pub struct Dec {
    pub mantissa: i128,
    pub scale: u32,
}

impl Dec {
    /// The mantissa and scale ranges mirror a 96-bit decimal representation.
    pub open spec fn wf(self) -> bool {
        -0x1000000000000000000000000 < self.mantissa < 0x1000000000000000000000000
            && self.scale <= 28
    }

    /// Whether the decimal denotes a whole number.
    pub open spec fn is_integer(self) -> bool {
        self.mantissa as int % pow10(self.scale as nat) == 0
    }

    /// The denoted whole number; meaningful only when `is_integer()`.
    pub open spec fn int_value(self) -> int {
        self.mantissa as int / pow10(self.scale as nat)
    }

    pub fn from_int(n: i64) -> (r: Dec)
        ensures
            r.mantissa == n as int,
            r.scale == 0,
            r.wf(),
            r.is_integer(),
            r.int_value() == n as int,
    {
        Dec { mantissa: n as i128, scale: 0 }
    }
}

/// A JSON document.
#[derive(Debug, PartialEq)]
pub enum Json {
    Null,
    Bool(bool),
    Num(Dec),
    Str(Vec<u8>),
    Arr(Vec<Json>),
    Obj(Vec<(Vec<u8>, Json)>),
}

/// The mathematical model of a JSON document: byte and element sequences
/// in place of vectors.
pub enum JsonV {
    Null,
    Bool(bool),
    Num(Dec),
    Str(Seq<u8>),
    Arr(Seq<JsonV>),
    Obj(Seq<(Seq<u8>, JsonV)>),
}

pub open spec fn json_view(j: Json) -> JsonV
    decreases j,
{
    match j {
        Json::Null => JsonV::Null,
        Json::Bool(b) => JsonV::Bool(b),
        Json::Num(d) => JsonV::Num(d),
        Json::Str(s) => JsonV::Str(s@),
        Json::Arr(elems) => JsonV::Arr(jsons_view(elems@)),
        Json::Obj(members) => JsonV::Obj(jmembers_view(members@)),
    }
}

pub open spec fn jsons_view(elems: Seq<Json>) -> Seq<JsonV>
    decreases elems,
{
    if elems.len() == 0 {
        Seq::<JsonV>::empty()
    } else {
        seq![json_view(elems[0])] + jsons_view(elems.skip(1))
    }
}

pub open spec fn jmembers_view(members: Seq<(Vec<u8>, Json)>) -> Seq<(Seq<u8>, JsonV)>
    decreases members,
{
    if members.len() == 0 {
        Seq::<(Seq<u8>, JsonV)>::empty()
    } else {
        seq![(members[0].0@, json_view(members[0].1))] + jmembers_view(members.skip(1))
    }
}

pub proof fn lemma_jsons_view_push(elems: Seq<Json>, j: Json)
    ensures
        jsons_view(elems.push(j)) == jsons_view(elems).push(json_view(j)),
    decreases elems.len(),
{
    if elems.len() == 0 {
        assert(elems.push(j).skip(1) =~= Seq::<Json>::empty());
        assert(elems.push(j)[0] == j);
        assert(jsons_view(Seq::<Json>::empty()) == Seq::<JsonV>::empty());
        assert(jsons_view(elems.push(j)) =~= jsons_view(elems).push(json_view(j)));
    } else {
        assert(elems.push(j).skip(1) =~= elems.skip(1).push(j));
        lemma_jsons_view_push(elems.skip(1), j);
        assert(elems.push(j)[0] == elems[0]);
        assert(jsons_view(elems.push(j)) == seq![json_view(elems[0])] + jsons_view(
            elems.skip(1),
        ).push(json_view(j)));
        assert(jsons_view(elems.push(j)) =~= jsons_view(elems).push(json_view(j)));
    }
}

pub proof fn lemma_jmembers_view_push(members: Seq<(Vec<u8>, Json)>, k: Vec<u8>, j: Json)
    ensures
        jmembers_view(members.push((k, j))) == jmembers_view(members).push((k@, json_view(j))),
    decreases members.len(),
{
    if members.len() == 0 {
        assert(members.push((k, j)).skip(1) =~= Seq::<(Vec<u8>, Json)>::empty());
        assert(members.push((k, j))[0] == (k, j));
        assert(jmembers_view(Seq::<(Vec<u8>, Json)>::empty()) == Seq::<(Seq<u8>, JsonV)>::empty());
        assert(jmembers_view(members.push((k, j))) =~= jmembers_view(members).push(
            (k@, json_view(j)),
        ));
    } else {
        assert(members.push((k, j)).skip(1) =~= members.skip(1).push((k, j)));
        lemma_jmembers_view_push(members.skip(1), k, j);
        assert(members.push((k, j))[0] == members[0]);
        assert(jmembers_view(members.push((k, j))) == seq![
            (members[0].0@, json_view(members[0].1)),
        ] + jmembers_view(members.skip(1)).push((k@, json_view(j))));
        assert(jmembers_view(members.push((k, j))) =~= jmembers_view(members).push(
            (k@, json_view(j)),
        ));
    }
}

pub proof fn lemma_jsons_view_len(elems: Seq<Json>)
    ensures
        jsons_view(elems).len() == elems.len(),
    decreases elems,
{
    if elems.len() > 0 {
        lemma_jsons_view_len(elems.skip(1));
    }
}

pub proof fn lemma_jsons_view_index(elems: Seq<Json>, i: int)
    requires
        0 <= i < elems.len(),
    ensures
        jsons_view(elems).len() == elems.len(),
        jsons_view(elems)[i] == json_view(elems[i]),
    decreases elems,
{
    lemma_jsons_view_len(elems);
    if i > 0 {
        lemma_jsons_view_index(elems.skip(1), i - 1);
    } else {
        lemma_jsons_view_len(elems.skip(1));
    }
}

pub proof fn lemma_jmembers_view_len(members: Seq<(Vec<u8>, Json)>)
    ensures
        jmembers_view(members).len() == members.len(),
    decreases members,
{
    if members.len() > 0 {
        lemma_jmembers_view_len(members.skip(1));
    }
}

pub proof fn lemma_jmembers_view_index(members: Seq<(Vec<u8>, Json)>, i: int)
    requires
        0 <= i < members.len(),
    ensures
        jmembers_view(members).len() == members.len(),
        jmembers_view(members)[i] == (members[i].0@, json_view(members[i].1)),
    decreases members,
{
    lemma_jmembers_view_len(members);
    if i > 0 {
        lemma_jmembers_view_index(members.skip(1), i - 1);
    } else {
        lemma_jmembers_view_len(members.skip(1));
    }
}

/// First value bound to `key` in an object's member list, if any.
pub open spec fn spec_obj_lookup(members: Seq<(Seq<u8>, JsonV)>, key: Seq<u8>) -> Option<JsonV>
    decreases members.len(),
{
    if members.len() == 0 {
        None
    } else if members[0].0 == key {
        Some(members[0].1)
    } else {
        spec_obj_lookup(members.skip(1), key)
    }
}

} // verus!

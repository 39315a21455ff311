//! The dynamic value type exchanged on the wire, with its mathematical model.

use vstd::prelude::*;

verus! {

/// Mathematical model of a wire value: what a [`JsonValue`] denotes.
///
/// Objects are modelled as the sequence of key/value pairs in the order they
/// stand in the text, so duplicate keys are representable; field lookup takes
/// the first binding (see [`lookup`]).
pub enum SpecValue {
    Null,
    Bool(bool),
    Int(int),
    Str(Seq<char>),
    Arr(Seq<SpecValue>),
    Obj(Seq<(Seq<char>, SpecValue)>),
}

/// A dynamic value of the wire format: null, boolean, integer, string,
/// array, or object.
pub enum JsonValue {
    Null,
    Bool(bool),
    Int(i64),
    Str(String),
    Arr(Vec<JsonValue>),
    Obj(Vec<(String, JsonValue)>),
}

/// Model of one wire value.
pub open spec fn view_val(v: JsonValue) -> SpecValue
    decreases v, 1int,
{
    match v {
        JsonValue::Null => SpecValue::Null,
        JsonValue::Bool(b) => SpecValue::Bool(b),
        JsonValue::Int(i) => SpecValue::Int(i as int),
        JsonValue::Str(s) => SpecValue::Str(s@),
        JsonValue::Arr(a) => SpecValue::Arr(view_list(a@)),
        JsonValue::Obj(o) => SpecValue::Obj(view_pairs(o@)),
    }
}

/// Model of a sequence of wire values (an array's elements).
pub open spec fn view_list(l: Seq<JsonValue>) -> Seq<SpecValue>
    decreases l, 0int,
{
    if l.len() == 0 {
        Seq::empty()
    } else {
        seq![view_val(l[0])] + view_list(l.subrange(1, l.len() as int))
    }
}

/// Model of a sequence of key/value pairs (an object's fields).
pub open spec fn view_pairs(l: Seq<(String, JsonValue)>) -> Seq<(Seq<char>, SpecValue)>
    decreases l, 0int,
{
    if l.len() == 0 {
        Seq::empty()
    } else {
        seq![(l[0].0@, view_val(l[0].1))] + view_pairs(l.subrange(1, l.len() as int))
    }
}

impl View for JsonValue {
    type V = SpecValue;

    open spec fn view(&self) -> SpecValue {
        view_val(*self)
    }
}

/// Nesting depth of a wire value: how many arrays and objects stand above
/// its deepest leaf. It is the measure recursive walks of a value decrease.
pub open spec fn depth_val(v: SpecValue) -> nat
    decreases v, 1int,
{
    match v {
        SpecValue::Arr(els) => 1 + depth_list(els),
        SpecValue::Obj(ps) => 1 + depth_pairs(ps),
        _ => 0,
    }
}

/// Largest depth among a sequence of values.
pub open spec fn depth_list(els: Seq<SpecValue>) -> nat
    decreases els, 0int,
{
    if els.len() == 0 {
        0
    } else if depth_val(els[0]) >= depth_list(els.subrange(1, els.len() as int)) {
        depth_val(els[0])
    } else {
        depth_list(els.subrange(1, els.len() as int))
    }
}

/// Largest depth among the values of a sequence of key/value pairs.
pub open spec fn depth_pairs(ps: Seq<(Seq<char>, SpecValue)>) -> nat
    decreases ps, 0int,
{
    if ps.len() == 0 {
        0
    } else if depth_val(ps[0].1) >= depth_pairs(ps.subrange(1, ps.len() as int)) {
        depth_val(ps[0].1)
    } else {
        depth_pairs(ps.subrange(1, ps.len() as int))
    }
}

pub proof fn lemma_depth_list_elem(els: Seq<SpecValue>, i: int)
    requires
        0 <= i < els.len(),
    ensures
        depth_val(els[i]) <= depth_list(els),
    decreases els.len(),
{
    if i > 0 {
        lemma_depth_list_elem(els.subrange(1, els.len() as int), i - 1);
    }
}

pub proof fn lemma_depth_pairs_elem(ps: Seq<(Seq<char>, SpecValue)>, i: int)
    requires
        0 <= i < ps.len(),
    ensures
        depth_val(ps[i].1) <= depth_pairs(ps),
    decreases ps.len(),
{
    if i > 0 {
        lemma_depth_pairs_elem(ps.subrange(1, ps.len() as int), i - 1);
    }
}

pub proof fn lemma_view_list_cons(v: JsonValue, rest: Seq<JsonValue>)
    ensures
        view_list(seq![v] + rest) == seq![view_val(v)] + view_list(rest),
{
    let l = seq![v] + rest;
    assert(l.subrange(1, l.len() as int) =~= rest);
}

pub proof fn lemma_view_list_one(v: JsonValue)
    ensures
        view_list(seq![v]) == seq![view_val(v)],
{
    let l = seq![v];
    assert(l.subrange(1, 1) =~= Seq::<JsonValue>::empty());
    assert(seq![view_val(v)] + view_list(l.subrange(1, 1)) =~= seq![view_val(v)]);
}

pub proof fn lemma_view_list_props(l: Seq<JsonValue>)
    ensures
        view_list(l).len() == l.len(),
        forall|i: int| 0 <= i < l.len() ==> view_list(l)[i] == view_val(l[i]),
    decreases l.len(),
{
    if l.len() > 0 {
        lemma_view_list_props(l.subrange(1, l.len() as int));
    }
}

pub proof fn lemma_view_pairs_props(l: Seq<(String, JsonValue)>)
    ensures
        view_pairs(l).len() == l.len(),
        forall|i: int|
            0 <= i < l.len() ==> view_pairs(l)[i] == (l[i].0@, view_val(l[i].1)),
    decreases l.len(),
{
    if l.len() > 0 {
        lemma_view_pairs_props(l.subrange(1, l.len() as int));
    }
}

pub proof fn lemma_view_pairs_cons(k: String, v: JsonValue, rest: Seq<(String, JsonValue)>)
    ensures
        view_pairs(seq![(k, v)] + rest) == seq![(k@, view_val(v))] + view_pairs(rest),
{
    let l = seq![(k, v)] + rest;
    assert(l.subrange(1, l.len() as int) =~= rest);
}

pub proof fn lemma_view_pairs_one(k: String, v: JsonValue)
    ensures
        view_pairs(seq![(k, v)]) == seq![(k@, view_val(v))],
{
    let l = seq![(k, v)];
    assert(l.subrange(1, 1) =~= Seq::<(String, JsonValue)>::empty());
    assert(seq![(k@, view_val(v))] + view_pairs(l.subrange(1, 1)) =~= seq![(k@, view_val(v))]);
}

/// Copy a wire value; the copy denotes the same model value.
pub fn clone_val(v: &JsonValue) -> (r: JsonValue)
    ensures
        r@ == v@,
    decreases depth_val(v@),
{
    match v {
        JsonValue::Null => JsonValue::Null,
        JsonValue::Bool(b) => JsonValue::Bool(*b),
        JsonValue::Int(i) => JsonValue::Int(*i),
        JsonValue::Str(s) => JsonValue::Str(s.clone()),
        JsonValue::Arr(a) => {
            let ghost gl = view_list(a@);
            proof {
                lemma_view_list_props(a@);
            }
            let mut out: Vec<JsonValue> = Vec::new();
            let mut idx: usize = 0;
            while idx < a.len()
                invariant
                    idx <= a@.len(),
                    v@ == SpecValue::Arr(gl),
                    gl == view_list(a@),
                    gl.len() == a@.len(),
                    forall|t: int| 0 <= t < a@.len() ==> gl[t] == view_val(a@[t]),
                    out@.len() == idx,
                    forall|t: int| 0 <= t < idx ==> view_val(out@[t]) == gl[t],
                decreases a@.len() - idx,
            {
                proof {
                    lemma_depth_list_elem(gl, idx as int);
                }
                let c = clone_val(&a[idx]);
                out.push(c);
                idx += 1;
            }
            proof {
                lemma_view_list_props(out@);
                assert(view_list(out@) =~= gl);
            }
            JsonValue::Arr(out)
        },
        JsonValue::Obj(o) => {
            let ghost gp = view_pairs(o@);
            proof {
                lemma_view_pairs_props(o@);
            }
            let mut out: Vec<(String, JsonValue)> = Vec::new();
            let mut idx: usize = 0;
            while idx < o.len()
                invariant
                    idx <= o@.len(),
                    v@ == SpecValue::Obj(gp),
                    gp == view_pairs(o@),
                    gp.len() == o@.len(),
                    forall|t: int| 0 <= t < o@.len() ==> gp[t] == (o@[t].0@, view_val(o@[t].1)),
                    out@.len() == idx,
                    forall|t: int|
                        0 <= t < idx ==> (out@[t].0@, view_val(out@[t].1)) == gp[t],
                decreases o@.len() - idx,
            {
                proof {
                    lemma_depth_pairs_elem(gp, idx as int);
                }
                let k = o[idx].0.clone();
                let c = clone_val(&o[idx].1);
                out.push((k, c));
                idx += 1;
            }
            proof {
                lemma_view_pairs_props(out@);
                assert(view_pairs(out@) =~= gp);
            }
            JsonValue::Obj(out)
        },
    }
}

/// Copy a sequence of wire values; the copy denotes the same model list.
pub fn clone_list(a: &Vec<JsonValue>) -> (out: Vec<JsonValue>)
    ensures
        view_list(out@) == view_list(a@),
        out@.len() == a@.len(),
{
    let ghost gl = view_list(a@);
    proof {
        lemma_view_list_props(a@);
    }
    let mut out: Vec<JsonValue> = Vec::new();
    let mut idx: usize = 0;
    while idx < a.len()
        invariant
            idx <= a@.len(),
            gl == view_list(a@),
            gl.len() == a@.len(),
            forall|t: int| 0 <= t < a@.len() ==> gl[t] == view_val(a@[t]),
            out@.len() == idx,
            forall|t: int| 0 <= t < idx ==> view_val(out@[t]) == gl[t],
        decreases a@.len() - idx,
    {
        let c = clone_val(&a[idx]);
        out.push(c);
        idx += 1;
    }
    proof {
        lemma_view_list_props(out@);
        assert(view_list(out@) =~= gl);
    }
    out
}

/// First binding of `key` among the pairs of an object, if any.
pub open spec fn lookup_pairs(pairs: Seq<(Seq<char>, SpecValue)>, key: Seq<char>) -> Option<
    SpecValue,
>
    decreases pairs.len(),
{
    if pairs.len() == 0 {
        None
    } else if pairs[0].0 == key {
        Some(pairs[0].1)
    } else {
        lookup_pairs(pairs.skip(1), key)
    }
}

/// Field lookup on a wire value: a field of an object, absent on every
/// other shape of value.
pub open spec fn lookup(v: SpecValue, key: Seq<char>) -> Option<SpecValue> {
    match v {
        SpecValue::Obj(pairs) => lookup_pairs(pairs, key),
        _ => None,
    }
}

} // verus!

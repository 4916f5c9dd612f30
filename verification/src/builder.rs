//! The recursive value builder and the numeric/scalar classifier.
//!
//! [`Raw`] is the tokenizer's report of one document, materialized: scalars
//! tagged exactly the way the event source classifies them, containers in
//! document order, duplicate object keys still present.  [`build_value`]
//! turns a `Raw` into the dynamic [`DynValue`], and its contract pins the result
//! to [`Raw::decoded`], the mathematical meaning of the report: numbers fall
//! into the signed range when they fit, lists keep document order, and
//! objects keep insertion order with the last write winning on a repeated
//! key.

use crate::object::insert_entry;
use crate::object::lemma_dedup_distinct;
use crate::object::lemma_dedup_entries_from;
use crate::object::spec_dedup;
use crate::object::spec_insert;
use crate::value::SpecValue;
use crate::value::DynValue;
use crate::value::lemma_wf_list;
use crate::value::lemma_wf_object;
use vstd::prelude::*;

verus! {

/// One JSON document as the event source reports it: every number already
/// classified by the tokenizer as a non-negative integer (`Uint`), an
/// integer that is only representable signed (`Int`), or a float (`Float`,
/// carried as IEEE-754 bits); sequences and mappings in document order, with
/// a mapping free to repeat a key.
#[derive(Debug, PartialEq, Eq)]
pub enum Raw {
    Null,
    Bool(bool),
    Uint(u64),
    Int(i64),
    Float(u64),
    Text(String),
    Arr(Vec<Raw>),
    Obj(Vec<(String, Raw)>),
}

/// Classification of a non-negative 64-bit integer literal: it becomes a
/// signed value whenever it fits the signed range, and an unsigned value
/// only above that range.
pub open spec fn spec_uint_value(u: u64) -> SpecValue {
    if u <= i64::MAX as u64 {
        SpecValue::Int(u as i64)
    } else {
        SpecValue::Uint(u)
    }
}

impl Raw {
    /// The dynamic value this report denotes.
    pub open spec fn decoded(self) -> SpecValue
        decreases self,
    {
        match self {
            Raw::Null => SpecValue::Null,
            Raw::Bool(b) => SpecValue::Bool(b),
            Raw::Uint(u) => spec_uint_value(u),
            Raw::Int(i) => SpecValue::Int(i),
            Raw::Float(bits) => SpecValue::Float(bits),
            Raw::Text(s) => SpecValue::Text(s@),
            Raw::Arr(ts) => SpecValue::List(Raw::decoded_seq(ts@)),
            Raw::Obj(ps) => SpecValue::Object(spec_dedup(Raw::raw_entries(ps@))),
        }
    }

    /// Pointwise meaning of a sequence of elements.
    pub open spec fn decoded_seq(ts: Seq<Raw>) -> Seq<SpecValue>
        decreases ts,
    {
        if ts.len() == 0 {
            Seq::empty()
        } else {
            Raw::decoded_seq(ts.drop_last()).push(ts.last().decoded())
        }
    }

    /// Pointwise meaning of a sequence of object entries, duplicates intact.
    pub open spec fn raw_entries(ps: Seq<(String, Raw)>) -> Seq<(Seq<char>, SpecValue)>
        decreases ps,
    {
        if ps.len() == 0 {
            Seq::empty()
        } else {
            Raw::raw_entries(ps.drop_last()).push((ps.last().0@, ps.last().1.decoded()))
        }
    }
}

/// `decoded_seq` maps each element to its meaning.
pub proof fn lemma_decoded_seq_points(ts: Seq<Raw>)
    ensures
        Raw::decoded_seq(ts).len() == ts.len(),
        forall|i: int|
            0 <= i < ts.len() ==> #[trigger] Raw::decoded_seq(ts)[i] == ts[i].decoded(),
    decreases ts,
{
    if ts.len() > 0 {
        lemma_decoded_seq_points(ts.drop_last());
    }
}

/// `raw_entries` maps each entry to its key's view and its value's meaning.
pub proof fn lemma_raw_entries_points(ps: Seq<(String, Raw)>)
    ensures
        Raw::raw_entries(ps).len() == ps.len(),
        forall|i: int|
            0 <= i < ps.len() ==> #[trigger] Raw::raw_entries(ps)[i] == (
            ps[i].0@,
            ps[i].1.decoded(),
            ),
    decreases ps,
{
    if ps.len() > 0 {
        lemma_raw_entries_points(ps.drop_last());
    }
}

/// Construct the dynamic value for a non-negative integer literal.
pub fn uint_value(u: u64) -> (r: DynValue)
    ensures
        r.model() == spec_uint_value(u),
{
    if u <= i64::MAX as u64 {
        DynValue::Int(u as i64)
    } else {
        DynValue::Uint(u)
    }
}

/// The recursive value builder: produce the dynamic value that the
/// tokenizer's report denotes.
pub fn build_value(t: &Raw) -> (r: DynValue)
    ensures
        r.model() == t.decoded(),
    decreases t,
{
    match t {
        Raw::Null => DynValue::Null,
        Raw::Bool(b) => DynValue::Bool(*b),
        Raw::Uint(u) => uint_value(*u),
        Raw::Int(i) => DynValue::Int(*i),
        Raw::Float(bits) => DynValue::Float(*bits),
        Raw::Text(s) => DynValue::Text(s.clone()),
        Raw::Arr(ts) => {
            let mut out: Vec<DynValue> = Vec::new();
            let n = ts.len();
            let mut i: usize = 0;
            while i < n
                invariant
                    n == ts@.len(),
                    0 <= i <= n,
                    t == Raw::Arr(*ts),
                    DynValue::model_seq(out@) == Raw::decoded_seq(ts@.take(i as int)),
                decreases n - i,
            {
                proof {
                    assert(decreases_to!(*t => t->Arr_0));
                    assert(t->Arr_0 == *ts);
                    assert(decreases_to!(*ts => ts@));
                    assert(decreases_to!(ts@ => ts@[i as int]));
                    assert(decreases_to!(*t => ts@[i as int]));
                }
                let ghost out0 = out@;
                let v = build_value(&ts[i]);
                out.push(v);
                proof {
                    let pre = ts@.take(i as int);
                    let post = ts@.take(i as int + 1);
                    assert(post.drop_last() =~= pre);
                    assert(post.last() == ts@[i as int]);
                    assert(out@.drop_last() =~= out0);
                    assert(DynValue::model_seq(out@) == DynValue::model_seq(out0).push(v.model()));
                    assert(Raw::decoded_seq(post) == Raw::decoded_seq(pre).push(
                        ts@[i as int].decoded(),
                    ));
                }
                i += 1;
            }
            proof {
                assert(ts@.take(n as int) =~= ts@);
            }
            DynValue::List(out)
        },
        Raw::Obj(ps) => {
            let mut out: Vec<(String, DynValue)> = Vec::new();
            let n = ps.len();
            let mut i: usize = 0;
            while i < n
                invariant
                    n == ps@.len(),
                    0 <= i <= n,
                    t == Raw::Obj(*ps),
                    DynValue::model_entries(out@) == spec_dedup(Raw::raw_entries(ps@.take(i as int))),
                decreases n - i,
            {
                proof {
                    assert(decreases_to!(*t => t->Obj_0));
                    assert(t->Obj_0 == *ps);
                    assert(decreases_to!(*ps => ps@));
                    assert(decreases_to!(ps@ => ps@[i as int]));
                    assert(decreases_to!(ps@[i as int] => ps@[i as int].1));
                    assert(decreases_to!(*t => ps@[i as int].1));
                }
                let v = build_value(&ps[i].1);
                let k = ps[i].0.clone();
                let ghost m0 = DynValue::model_entries(out@);
                insert_entry(&mut out, k, v);
                proof {
                    let pre = ps@.take(i as int);
                    let post = ps@.take(i as int + 1);
                    assert(post.drop_last() =~= pre);
                    assert(post.last() == ps@[i as int]);
                    assert(Raw::raw_entries(post) == Raw::raw_entries(pre).push((
                        ps@[i as int].0@,
                        ps@[i as int].1.decoded(),
                    )));
                    let raw = Raw::raw_entries(post);
                    assert(raw.drop_last() =~= Raw::raw_entries(pre));
                    assert(spec_dedup(raw) == spec_insert(
                        spec_dedup(Raw::raw_entries(pre)),
                        ps@[i as int].0@,
                        ps@[i as int].1.decoded(),
                    ));
                }
                i += 1;
            }
            proof {
                assert(ps@.take(n as int) =~= ps@);
            }
            DynValue::Object(out)
        },
    }
}

/// Determinism of decoding: the meaning of a report is a function of the
/// report alone, so any two values built from equal reports have equal
/// models — the same variant with the same contents, independent of prior
/// calls or surrounding structure.
pub proof fn lemma_build_deterministic(t: Raw, v1: DynValue, v2: DynValue)
    requires
        v1.model() == t.decoded(),
        v2.model() == t.decoded(),
    ensures
        v1.model() == v2.model(),
{
}

/// Order preservation: an object that repeats no key decodes to a map with
/// exactly its entries, in document order.
pub proof fn lemma_object_order(ps: Seq<(String, Raw)>)
    requires
        forall|i: int, j: int| 0 <= i < j < ps.len() ==> ps[i].0@ != ps[j].0@,
    ensures
        spec_dedup(Raw::raw_entries(ps)) == Raw::raw_entries(ps),
        Raw::raw_entries(ps).len() == ps.len(),
        forall|i: int|
            0 <= i < ps.len() ==> #[trigger] Raw::raw_entries(ps)[i] == (
            ps[i].0@,
            ps[i].1.decoded(),
            ),
{
    let raw = Raw::raw_entries(ps);
    lemma_raw_entries_points(ps);
    assert forall|i: int, j: int| 0 <= i < j < raw.len() implies raw[i].0 != raw[j].0 by {
        assert(raw[i] == (ps[i].0@, ps[i].1.decoded()));
        assert(raw[j] == (ps[j].0@, ps[j].1.decoded()));
    }
    crate::object::lemma_dedup_identity(raw);
}

/// Nesting depth of a report: a scalar sits at depth zero, a container one
/// level above its deepest child.
pub open spec fn raw_depth(t: Raw) -> nat
    decreases t,
{
    match t {
        Raw::Arr(ts) => 1 + raw_depth_seq(ts@),
        Raw::Obj(ps) => 1 + raw_depth_entries(ps@),
        _ => 0,
    }
}

/// Depth of the deepest element.
pub open spec fn raw_depth_seq(ts: Seq<Raw>) -> nat
    decreases ts,
{
    if ts.len() == 0 {
        0
    } else if raw_depth_seq(ts.drop_last()) >= raw_depth(ts.last()) {
        raw_depth_seq(ts.drop_last())
    } else {
        raw_depth(ts.last())
    }
}

/// Depth of the deepest entry value.
pub open spec fn raw_depth_entries(ps: Seq<(String, Raw)>) -> nat
    decreases ps,
{
    if ps.len() == 0 {
        0
    } else if raw_depth_entries(ps.drop_last()) >= raw_depth(ps.last().1) {
        raw_depth_entries(ps.drop_last())
    } else {
        raw_depth(ps.last().1)
    }
}

/// Nesting depth of a dynamic value, measured the same way.
pub open spec fn value_depth(v: SpecValue) -> nat
    decreases v,
{
    match v {
        SpecValue::List(vs) => 1 + value_depth_seq(vs),
        SpecValue::Object(es) => 1 + value_depth_entries(es),
        _ => 0,
    }
}

/// Depth of the deepest element.
pub open spec fn value_depth_seq(vs: Seq<SpecValue>) -> nat
    decreases vs,
{
    if vs.len() == 0 {
        0
    } else if value_depth_seq(vs.drop_last()) >= value_depth(vs.last()) {
        value_depth_seq(vs.drop_last())
    } else {
        value_depth(vs.last())
    }
}

/// Depth of the deepest entry value.
pub open spec fn value_depth_entries(es: Seq<(Seq<char>, SpecValue)>) -> nat
    decreases es,
{
    if es.len() == 0 {
        0
    } else if value_depth_entries(es.drop_last()) >= value_depth(es.last().1) {
        value_depth_entries(es.drop_last())
    } else {
        value_depth(es.last().1)
    }
}

/// No object anywhere in the report repeats a key.
pub open spec fn no_repeated_keys(t: Raw) -> bool
    decreases t,
{
    match t {
        Raw::Arr(ts) => no_repeated_keys_seq(ts@),
        Raw::Obj(ps) => (forall|i: int, j: int|
            0 <= i < j < ps@.len() ==> ps@[i].0@ != ps@[j].0@) && no_repeated_keys_entries(ps@),
        _ => true,
    }
}

/// Every element is free of repeated keys.
pub open spec fn no_repeated_keys_seq(ts: Seq<Raw>) -> bool
    decreases ts,
{
    ts.len() == 0 || (no_repeated_keys_seq(ts.drop_last()) && no_repeated_keys(ts.last()))
}

/// Every entry value is free of repeated keys.
pub open spec fn no_repeated_keys_entries(ps: Seq<(String, Raw)>) -> bool
    decreases ps,
{
    ps.len() == 0 || (no_repeated_keys_entries(ps.drop_last()) && no_repeated_keys(ps.last().1))
}

/// Nesting is preserved exactly: a report that repeats no key decodes to a
/// value of the same depth.  (A repeated key can lower the depth, since the
/// overwritten value is dropped.)
pub proof fn lemma_depth_preserved(t: Raw)
    requires
        no_repeated_keys(t),
    ensures
        value_depth(t.decoded()) == raw_depth(t),
    decreases t, 1int,
{
    match t {
        Raw::Arr(ts) => {
            assert(decreases_to!(t => t->Arr_0));
            assert(t->Arr_0 == ts);
            assert(decreases_to!(ts => ts@));
            lemma_depth_preserved_seq(ts@);
        },
        Raw::Obj(ps) => {
            assert(decreases_to!(t => t->Obj_0));
            assert(t->Obj_0 == ps);
            assert(decreases_to!(ps => ps@));
            let raw = Raw::raw_entries(ps@);
            lemma_raw_entries_points(ps@);
            assert forall|i: int, j: int| 0 <= i < j < raw.len() implies raw[i].0 != raw[j].0 by {
                assert(raw[i] == (ps@[i].0@, ps@[i].1.decoded()));
                assert(raw[j] == (ps@[j].0@, ps@[j].1.decoded()));
            }
            crate::object::lemma_dedup_identity(raw);
            lemma_depth_preserved_entries(ps@);
        },
        _ => {},
    }
}

/// Depth preservation, elementwise.
pub proof fn lemma_depth_preserved_seq(ts: Seq<Raw>)
    requires
        no_repeated_keys_seq(ts),
    ensures
        value_depth_seq(Raw::decoded_seq(ts)) == raw_depth_seq(ts),
    decreases ts, 0int,
{
    if ts.len() > 0 {
        lemma_depth_preserved_seq(ts.drop_last());
        lemma_depth_preserved(ts.last());
        assert(Raw::decoded_seq(ts).drop_last() =~= Raw::decoded_seq(ts.drop_last()));
        assert(Raw::decoded_seq(ts).last() == ts.last().decoded());
    }
}

/// Depth preservation, entrywise.
pub proof fn lemma_depth_preserved_entries(ps: Seq<(String, Raw)>)
    requires
        no_repeated_keys_entries(ps),
    ensures
        value_depth_entries(Raw::raw_entries(ps)) == raw_depth_entries(ps),
    decreases ps, 0int,
{
    if ps.len() > 0 {
        lemma_depth_preserved_entries(ps.drop_last());
        lemma_depth_preserved(ps.last().1);
        assert(Raw::raw_entries(ps).drop_last() =~= Raw::raw_entries(ps.drop_last()));
        assert(Raw::raw_entries(ps).last() == (ps.last().0@, ps.last().1.decoded()));
    }
}

/// Every dynamic value the builder can produce is well formed: every map in
/// it, at any depth, keeps its keys distinct.
pub proof fn lemma_decoded_wf(t: Raw)
    ensures
        t.decoded().wf(),
    decreases t,
{
    match t {
        Raw::Arr(ts) => {
            lemma_decoded_seq_points(ts@);
            assert forall|i: int| 0 <= i < Raw::decoded_seq(ts@).len() implies #[trigger] Raw::decoded_seq(
                ts@,
            )[i].wf() by {
                assert(decreases_to!(t => t->Arr_0));
                assert(t->Arr_0 == ts);
                assert(decreases_to!(ts => ts@));
                assert(decreases_to!(ts@ => ts@[i]));
                lemma_decoded_wf(ts@[i]);
            }
            lemma_wf_list(Raw::decoded_seq(ts@));
        },
        Raw::Obj(ps) => {
            let raw = Raw::raw_entries(ps@);
            let es = spec_dedup(raw);
            lemma_dedup_distinct(raw);
            lemma_dedup_entries_from(raw);
            lemma_raw_entries_points(ps@);
            assert forall|i: int| 0 <= i < es.len() implies #[trigger] es[i].1.wf() by {
                let j = choose|j: int| 0 <= j < raw.len() && raw[j] == es[i];
                assert(decreases_to!(t => t->Obj_0));
                assert(t->Obj_0 == ps);
                assert(decreases_to!(ps => ps@));
                assert(decreases_to!(ps@ => ps@[j]));
                assert(decreases_to!(ps@[j] => ps@[j].1));
                lemma_decoded_wf(ps@[j].1);
            }
            lemma_wf_object(es);
        },
        _ => {},
    }
}

} // verus!

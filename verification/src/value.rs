//! The dynamic value produced by decoding, and its mathematical model.

use vstd::prelude::*;

verus! {

/// Mathematical model of a dynamic value: the same shape as [`DynValue`], with
/// strings abstracted to character sequences and containers to `Seq`.
/// Contracts throughout the crate are stated over this type.
pub enum SpecValue {
    Null,
    Bool(bool),
    Int(i64),
    Uint(u64),
    Float(u64),
    Text(Seq<char>),
    List(Seq<SpecValue>),
    Object(Seq<(Seq<char>, SpecValue)>),
}

impl SpecValue {
    /// Well-formedness: every map in the value, at any depth, keeps its keys
    /// distinct.
    pub open spec fn wf(self) -> bool
        decreases self,
    {
        match self {
            SpecValue::List(vs) => SpecValue::wf_seq(vs),
            SpecValue::Object(es) => crate::object::distinct_keys(es) && SpecValue::wf_entries(
                es,
            ),
            _ => true,
        }
    }

    /// Every element of the sequence is well formed.
    pub open spec fn wf_seq(vs: Seq<SpecValue>) -> bool
        decreases vs,
    {
        vs.len() == 0 || (SpecValue::wf_seq(vs.drop_last()) && vs.last().wf())
    }

    /// Every value of the entry sequence is well formed.
    pub open spec fn wf_entries(es: Seq<(Seq<char>, SpecValue)>) -> bool
        decreases es,
    {
        es.len() == 0 || (SpecValue::wf_entries(es.drop_last()) && es.last().1.wf())
    }
}

/// A list value is well formed when its elements are.
pub proof fn lemma_wf_list(vs: Seq<SpecValue>)
    requires
        forall|i: int| 0 <= i < vs.len() ==> #[trigger] vs[i].wf(),
    ensures
        SpecValue::List(vs).wf(),
    decreases vs,
{
    if vs.len() > 0 {
        lemma_wf_list(vs.drop_last());
        assert(SpecValue::wf_seq(vs.drop_last()));
        assert(vs.last().wf());
        assert(SpecValue::wf_seq(vs));
    } else {
        assert(SpecValue::wf_seq(vs));
    }
}

/// A map value is well formed when its keys are distinct and its values are
/// well formed.
pub proof fn lemma_wf_object(es: Seq<(Seq<char>, SpecValue)>)
    requires
        crate::object::distinct_keys(es),
        forall|i: int| 0 <= i < es.len() ==> #[trigger] es[i].1.wf(),
    ensures
        SpecValue::Object(es).wf(),
    decreases es,
{
    if es.len() > 0 {
        let front = es.drop_last();
        assert forall|i: int| 0 <= i < front.len() implies #[trigger] front[i].1.wf() by {
            assert(front[i] == es[i]);
        }
        assert forall|i: int, j: int| 0 <= i < j < front.len() implies front[i].0
            != front[j].0 by {
            assert(front[i] == es[i] && front[j] == es[j]);
        }
        lemma_wf_object(front);
        assert(SpecValue::wf_entries(front));
        assert(es.last().1.wf());
        assert(SpecValue::wf_entries(es));
    } else {
        assert(SpecValue::wf_entries(es));
    }
}

/// A decoded dynamic value: a closed tagged union covering everything a JSON
/// document can denote.
///
/// - `Int` holds a number that fits the signed 64-bit range; `Uint` holds a
///   non-negative number above that range.
/// - `Float` holds the IEEE-754 bit pattern of a 64-bit float, so that the
///   variant stays free of floating-point arithmetic; a caller reconstructs
///   the float with `f64::from_bits`.
/// - `Object` keeps its entries in insertion order and never holds a key
///   twice (established by the builder, see [`crate::builder`]).
#[derive(Debug, PartialEq, Eq)]
pub enum DynValue {
    Null,
    Bool(bool),
    Int(i64),
    Uint(u64),
    Float(u64),
    Text(String),
    List(Vec<DynValue>),
    Object(Vec<(String, DynValue)>),
}

impl DynValue {
    /// The model of this value.
    pub open spec fn model(self) -> SpecValue
        decreases self,
    {
        match self {
            DynValue::Null => SpecValue::Null,
            DynValue::Bool(b) => SpecValue::Bool(b),
            DynValue::Int(i) => SpecValue::Int(i),
            DynValue::Uint(u) => SpecValue::Uint(u),
            DynValue::Float(bits) => SpecValue::Float(bits),
            DynValue::Text(s) => SpecValue::Text(s@),
            DynValue::List(vs) => SpecValue::List(DynValue::model_seq(vs@)),
            DynValue::Object(es) => SpecValue::Object(DynValue::model_entries(es@)),
        }
    }

    /// Pointwise model of a sequence of values.
    pub open spec fn model_seq(vs: Seq<DynValue>) -> Seq<SpecValue>
        decreases vs,
    {
        if vs.len() == 0 {
            Seq::empty()
        } else {
            DynValue::model_seq(vs.drop_last()).push(vs.last().model())
        }
    }

    /// Pointwise model of a sequence of map entries.
    pub open spec fn model_entries(es: Seq<(String, DynValue)>) -> Seq<(Seq<char>, SpecValue)>
        decreases es,
    {
        if es.len() == 0 {
            Seq::empty()
        } else {
            DynValue::model_entries(es.drop_last()).push((es.last().0@, es.last().1.model()))
        }
    }
}

/// `model_seq` maps each element to its model.
pub proof fn lemma_model_seq_points(vs: Seq<DynValue>)
    ensures
        DynValue::model_seq(vs).len() == vs.len(),
        forall|i: int|
            0 <= i < vs.len() ==> #[trigger] DynValue::model_seq(vs)[i] == vs[i].model(),
    decreases vs,
{
    if vs.len() > 0 {
        lemma_model_seq_points(vs.drop_last());
    }
}

/// `model_entries` maps each entry to its key's view and its value's model.
pub proof fn lemma_model_entries_points(es: Seq<(String, DynValue)>)
    ensures
        DynValue::model_entries(es).len() == es.len(),
        forall|i: int|
            0 <= i < es.len() ==> #[trigger] DynValue::model_entries(es)[i] == (
            es[i].0@,
            es[i].1.model(),
            ),
    decreases es,
{
    if es.len() > 0 {
        lemma_model_entries_points(es.drop_last());
    }
}

} // verus!

use vstd::prelude::*;
use vstd::string::*;

use crate::time::{DateTimeNaive, DateTimeUtc, Duration};

verus! {

broadcast use vstd::std_specs::vec::group_vec_axioms;

/// A row identifier: a fixed-width, deterministically derived hash of the
/// row's key-defining values. Two identifiers are equal exactly when the
/// hashes are, and distinct identifiers are treated as distinct rows.
#[derive(Clone, Copy, Debug, PartialEq, Eq, PartialOrd, Ord, Hash, Structural)]
pub struct Key(pub u64);

/// The mathematical shape of a `Value`: strings become character sequences
/// and tuples become sequences of shapes.
pub enum SpecValue {
    Null,
    Bool(bool),
    Int(int),
    Str(Seq<char>),
    Pointer(u64),
    DateTimeNaive(int),
    DateTimeUtc(int),
    Duration(int),
    Tuple(Seq<SpecValue>),
    Error,
}

/// A field value of a row: a closed tagged union over the scalar kinds the
/// engine knows, a pointer to another row, an ordered tuple, and the sticky
/// `Error` marker that stands for a failed computation on this row.
#[derive(Debug, PartialEq, Eq)]
pub enum Value {
    Null,
    Bool(bool),
    Int(i64),
    Str(String),
    Pointer(Key),
    DateTimeNaive(DateTimeNaive),
    DateTimeUtc(DateTimeUtc),
    Duration(Duration),
    Tuple(Vec<Value>),
    Error,
}

/// The shape of one value.
pub open spec fn spec_of(v: Value) -> SpecValue
    decreases v,
    via spec_of_decreases
{
    match v {
        Value::Null => SpecValue::Null,
        Value::Bool(b) => SpecValue::Bool(b),
        Value::Int(i) => SpecValue::Int(i as int),
        Value::Str(s) => SpecValue::Str(s@),
        Value::Pointer(k) => SpecValue::Pointer(k.0 as u64),
        Value::DateTimeNaive(t) => SpecValue::DateTimeNaive(t@),
        Value::DateTimeUtc(t) => SpecValue::DateTimeUtc(t@),
        Value::Duration(d) => SpecValue::Duration(d@),
        Value::Tuple(vs) => SpecValue::Tuple(spec_of_seq(vs@)),
        Value::Error => SpecValue::Error,
    }
}

#[via_fn]
proof fn spec_of_decreases(v: Value) {
    match v {
        Value::Tuple(vs) => {
            assert(decreases_to!(v => vs));
            vstd::std_specs::vec::axiom_vec_decreases_to_view(vs);
        },
        _ => {},
    }
}

/// The shapes of a sequence of values, in order.
pub open spec fn spec_of_seq(s: Seq<Value>) -> Seq<SpecValue>
    decreases s,
    via spec_of_seq_decreases
{
    if s.len() == 0 {
        Seq::empty()
    } else {
        spec_of_seq(s.drop_last()).push(spec_of(s.last()))
    }
}

#[via_fn]
proof fn spec_of_seq_decreases(s: Seq<Value>) {
    if s.len() > 0 {
        vstd::seq::axiom_seq_index_decreases(s, s.len() - 1);
        vstd::seq::axiom_seq_subrange_decreases(s, 0, s.len() - 1);
        assert(s.drop_last() == s.subrange(0, s.len() - 1));
        assert(s.last() == s[s.len() - 1]);
    }
}

/// Element-by-element shape of a sequence of values.
pub broadcast proof fn lemma_spec_of_seq(s: Seq<Value>)
    ensures
        (#[trigger] spec_of_seq(s)).len() == s.len(),
        forall|i: int| 0 <= i < s.len() ==> spec_of_seq(s)[i] == spec_of(s[i]),
    decreases s.len(),
{
    if s.len() > 0 {
        lemma_spec_of_seq(s.drop_last());
    }
}

impl View for Value {
    type V = SpecValue;

    open spec fn view(&self) -> SpecValue {
        spec_of(*self)
    }
}

impl DeepView for Value {
    type V = SpecValue;

    open spec fn deep_view(&self) -> SpecValue {
        spec_of(*self)
    }
}

impl Value {
    /// A copy of this value with the same shape.
    #[verifier::loop_isolation(false)]
    pub fn dup(&self) -> (r: Value)
        ensures
            r@ == self@,
        decreases self,
    {
        match self {
            Value::Null => Value::Null,
            Value::Bool(b) => Value::Bool(*b),
            Value::Int(i) => Value::Int(*i),
            Value::Str(s) => Value::Str(s.clone()),
            Value::Pointer(k) => Value::Pointer(*k),
            Value::DateTimeNaive(t) => Value::DateTimeNaive(*t),
            Value::DateTimeUtc(t) => Value::DateTimeUtc(*t),
            Value::Duration(d) => Value::Duration(*d),
            Value::Tuple(v) => {
                let mut out: Vec<Value> = Vec::new();
                let n = v.len();
                let mut i: usize = 0;
                while i < n
                    invariant
                        0 <= i <= n,
                        n == v@.len(),
                        out@.len() == i,
                        forall|j: int| 0 <= j < i ==> out@[j]@ == v@[j]@,
                    decreases n - i,
                {
                    proof {
                        assert(decreases_to!(*self => *v));
                        vstd::std_specs::vec::axiom_vec_index_decreases(*v, i as int);
                    }
                    let e = v[i].dup();
                    out.push(e);
                    i += 1;
                }
                proof {
                    lemma_spec_of_seq(out@);
                    lemma_spec_of_seq(v@);
                    assert(spec_of_seq(out@) =~= spec_of_seq(v@));
                }
                Value::Tuple(out)
            },
            Value::Error => Value::Error,
        }
    }

    /// Whether this value is the sticky error marker.
    pub fn is_error(&self) -> (r: bool)
        ensures
            r == (self@ is Error),
    {
        match self {
            Value::Error => true,
            _ => false,
        }
    }
}

} // verus!

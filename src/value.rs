use vstd::prelude::*;

use crate::pattern::{names_distinct, names_model};

verus! {

/// An atomic, comparable datum held by a leaf value.
#[derive(Debug, PartialEq, Eq)]
pub enum Scalar {
    Int(i64),
    Bool(bool),
    Text(String),
}

/// Mathematical model of a scalar.
pub enum ScalarModel {
    Int(int),
    Bool(bool),
    Text(Seq<char>),
}

impl View for Scalar {
    type V = ScalarModel;

    open spec fn view(&self) -> ScalarModel {
        match self {
            Scalar::Int(i) => ScalarModel::Int(*i as int),
            Scalar::Bool(b) => ScalarModel::Bool(*b),
            Scalar::Text(s) => ScalarModel::Text(s@),
        }
    }
}

/// An immutable value tree: a leaf, a positional tuple, a record of named
/// fields, or a tagged variant with an optional payload.
#[derive(Debug, PartialEq, Eq)]
pub enum Value {
    Leaf(Scalar),
    Tuple(Vec<Value>),
    Record(Vec<(String, Value)>),
    Variant(String, Option<Box<Value>>),
}

/// Mathematical model of a value tree.
pub enum ValueModel {
    Leaf(ScalarModel),
    Tuple(Seq<ValueModel>),
    Record(Seq<(Seq<char>, ValueModel)>),
    Variant(Seq<char>, Option<Box<ValueModel>>),
}

/// The model of a value tree, built recursively.
pub open spec fn value_model(v: &Value) -> ValueModel
    decreases v,
{
    match v {
        Value::Leaf(s) => ValueModel::Leaf(s@),
        Value::Tuple(vs) => ValueModel::Tuple(
            Seq::new(
                vs.len() as nat,
                |i: int|
                    if 0 <= i < vs.len() {
                        value_model(&vs[i])
                    } else {
                        ValueModel::Tuple(Seq::empty())
                    },
            ),
        ),
        Value::Record(fs) => ValueModel::Record(
            Seq::new(
                fs.len() as nat,
                |i: int|
                    if 0 <= i < fs.len() {
                        (fs[i].0@, value_model(&fs[i].1))
                    } else {
                        (Seq::empty(), ValueModel::Tuple(Seq::empty()))
                    },
            ),
        ),
        Value::Variant(tag, payload) => ValueModel::Variant(
            tag@,
            match payload {
                Some(p) => Some(Box::new(value_model(p))),
                None => None,
            },
        ),
    }
}

impl View for Value {
    type V = ValueModel;

    open spec fn view(&self) -> ValueModel {
        value_model(self)
    }
}

/// True when no two entries of `names` are equal.
pub open spec fn all_distinct(names: Seq<Seq<char>>) -> bool {
    forall|i: int, j: int| 0 <= i < j < names.len() ==> names[i] != names[j]
}

/// The names of a list of fields, in order.
pub open spec fn entry_names(fs: Seq<(String, Value)>) -> Seq<Seq<char>> {
    fs.map_values(|f: (String, Value)| f.0@)
}

/// Equality of two scalars by value.
pub fn scalars_equal(a: &Scalar, b: &Scalar) -> (r: bool)
    ensures
        r == (a@ == b@),
{
    match (a, b) {
        (Scalar::Int(x), Scalar::Int(y)) => *x == *y,
        (Scalar::Bool(x), Scalar::Bool(y)) => *x == *y,
        (Scalar::Text(x), Scalar::Text(y)) => *x == *y,
        _ => false,
    }
}

/// Structural equality of two value trees.
pub fn values_equal(a: &Value, b: &Value) -> (r: bool)
    ensures
        r == (a@ == b@),
    decreases a,
{
    match (a, b) {
        (Value::Leaf(x), Value::Leaf(y)) => scalars_equal(x, y),
        (Value::Tuple(xs), Value::Tuple(ys)) => {
            if xs.len() != ys.len() {
                assert(a@->Tuple_0.len() != b@->Tuple_0.len());
                return false;
            }
            let mut i: usize = 0;
            while i < xs.len()
                invariant
                    xs.len() == ys.len(),
                    i <= xs.len(),
                    *a == Value::Tuple(*xs),
                    *b == Value::Tuple(*ys),
                    forall|k: int| 0 <= k < i ==> xs[k]@ == ys[k]@,
                decreases xs.len() - i,
            {
                if !values_equal(&xs[i], &ys[i]) {
                    assert(a@->Tuple_0[i as int] == xs[i as int]@);
                    assert(b@->Tuple_0[i as int] == ys[i as int]@);
                    return false;
                }
                i += 1;
            }
            assert(a@->Tuple_0 =~= b@->Tuple_0);
            true
        },
        (Value::Record(xs), Value::Record(ys)) => {
            if xs.len() != ys.len() {
                assert(a@->Record_0.len() != b@->Record_0.len());
                return false;
            }
            let mut i: usize = 0;
            while i < xs.len()
                invariant
                    xs.len() == ys.len(),
                    i <= xs.len(),
                    *a == Value::Record(*xs),
                    *b == Value::Record(*ys),
                    forall|k: int| 0 <= k < i ==> xs[k].0@ == ys[k].0@ && xs[k].1@ == ys[k].1@,
                decreases xs.len() - i,
            {
                let same_name = xs[i].0 == ys[i].0;
                if !same_name || !values_equal(&xs[i].1, &ys[i].1) {
                    assert(a@->Record_0[i as int] == (xs[i as int].0@, xs[i as int].1@));
                    assert(b@->Record_0[i as int] == (ys[i as int].0@, ys[i as int].1@));
                    return false;
                }
                i += 1;
            }
            assert(a@->Record_0 =~= b@->Record_0);
            true
        },
        (Value::Variant(t1, p1), Value::Variant(t2, p2)) => {
            if *t1 != *t2 {
                return false;
            }
            match (p1, p2) {
                (None, None) => true,
                (Some(x), Some(y)) => values_equal(x, y),
                _ => false,
            }
        },
        _ => false,
    }
}

impl Scalar {
    /// A copy of the scalar.
    pub fn copy(&self) -> (r: Scalar)
        ensures
            r@ == self@,
    {
        match self {
            Scalar::Int(i) => Scalar::Int(*i),
            Scalar::Bool(b) => Scalar::Bool(*b),
            Scalar::Text(t) => Scalar::Text(t.clone()),
        }
    }
}

impl Value {
    /// Builds a record value, refusing fields that repeat a name.
    pub fn record(fields: Vec<(String, Value)>) -> (r: Option<Value>)
        ensures
            all_distinct(entry_names(fields@)) ==> r == Some(Value::Record(fields)),
            !all_distinct(entry_names(fields@)) ==> r is None,
    {
        let mut names: Vec<String> = Vec::new();
        let mut i: usize = 0;
        while i < fields.len()
            invariant
                i <= fields.len(),
                names.len() == i,
                forall|k: int| 0 <= k < i ==> names[k]@ == fields[k].0@,
            decreases fields.len() - i,
        {
            names.push(fields[i].0.clone());
            i += 1;
        }
        assert(names_model(names@) =~= entry_names(fields@));
        if names_distinct(&names) {
            Some(Value::Record(fields))
        } else {
            None
        }
    }
}

/// A copy of the whole tree, independent of the original.
pub fn copy_value(v: &Value) -> (r: Value)
    ensures
        r@ == v@,
    decreases v,
{
    match v {
        Value::Leaf(s) => Value::Leaf(s.copy()),
        Value::Tuple(vs) => {
            let mut out: Vec<Value> = Vec::new();
            let mut i: usize = 0;
            while i < vs.len()
                invariant
                    i <= vs.len(),
                    out.len() == i,
                    *v == Value::Tuple(*vs),
                    forall|k: int| 0 <= k < i ==> out[k]@ == vs[k]@,
                decreases vs.len() - i,
            {
                proof {
                    assert(decreases_to!(*v => (*v)->Tuple_0));
                    assert(decreases_to!(*vs => vs[i as int]));
                }
                let c = copy_value(&vs[i]);
                out.push(c);
                i += 1;
            }
            let r = Value::Tuple(out);
            assert(r@->Tuple_0 =~= v@->Tuple_0);
            r
        },
        Value::Record(fs) => {
            let mut out: Vec<(String, Value)> = Vec::new();
            let mut i: usize = 0;
            while i < fs.len()
                invariant
                    i <= fs.len(),
                    out.len() == i,
                    *v == Value::Record(*fs),
                    forall|k: int| 0 <= k < i ==> out[k].0@ == fs[k].0@ && out[k].1@ == fs[k].1@,
                decreases fs.len() - i,
            {
                proof {
                    assert(decreases_to!(*v => (*v)->Record_0));
                    assert(decreases_to!(*fs => fs[i as int]));
                    assert(decreases_to!(fs[i as int] => fs[i as int].1));
                }
                let c = copy_value(&fs[i].1);
                out.push((fs[i].0.clone(), c));
                i += 1;
            }
            let r = Value::Record(out);
            assert(r@->Record_0 =~= v@->Record_0);
            r
        },
        Value::Variant(tag, payload) => {
            let p = match payload {
                Some(b) => Some(Box::new(copy_value(b))),
                None => None,
            };
            Value::Variant(tag.clone(), p)
        },
    }
}

} // verus!

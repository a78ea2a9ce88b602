use vstd::prelude::*;

verus! {

/// A decimal number written with a fractional part: `digits / 10^scale`.
///
/// Numbers with a point are kept exactly as they were written (`3.13` is
/// `digits == 313, scale == 2`). Arithmetic on them is exact except for
/// division, which rounds toward zero at the larger scale of its operands.
/// The `==` operator and ordering compare decimals by value, so `2.5` equals
/// `2.50` and `3` equals `3.0`.
#[derive(Debug, Clone, Copy, PartialEq, Eq, Structural)]
pub struct Decimal {
    pub digits: i64,
    pub scale: u32,
}

/// A dynamically typed value produced by evaluating an expression.
#[derive(Debug, PartialEq)]
pub enum Value {
    Integer(i64),
    Float(Decimal),
    Boolean(bool),
    String(String),
    List(Vec<Value>),
}

/// The mathematical content of a [`Value`]: text as characters, lists as sequences.
pub enum ValueModel {
    Integer(i64),
    Float(Decimal),
    Boolean(bool),
    Text(Seq<char>),
    List(Seq<ValueModel>),
}

/// The model of a value, element by element.
pub open spec fn model(v: Value) -> ValueModel
    decreases v,
{
    match v {
        Value::Integer(n) => ValueModel::Integer(n),
        Value::Float(d) => ValueModel::Float(d),
        Value::Boolean(b) => ValueModel::Boolean(b),
        Value::String(s) => ValueModel::Text(s@),
        Value::List(l) => ValueModel::List(
            Seq::new(
                l@.len(),
                |i: int|
                    if 0 <= i < l@.len() {
                        model(l@[i])
                    } else {
                        ValueModel::Boolean(false)
                    },
            ),
        ),
    }
}

impl View for Value {
    type V = ValueModel;

    open spec fn view(&self) -> ValueModel {
        model(*self)
    }
}

/// Truthiness: zero, empty text and the empty list are false, `Boolean` is itself,
/// everything else is true.
pub open spec fn truthy(v: ValueModel) -> bool {
    match v {
        ValueModel::Integer(n) => n != 0,
        ValueModel::Float(d) => d.digits != 0,
        ValueModel::Boolean(b) => b,
        ValueModel::Text(s) => s.len() != 0,
        ValueModel::List(l) => l.len() != 0,
    }
}

/// Two lists whose elements have equal models have equal models.
proof fn lemma_list_model_eq(a: Vec<Value>, b: Vec<Value>)
    requires
        a@.len() == b@.len(),
        forall|j: int| 0 <= j < a@.len() ==> (#[trigger] a@[j])@ == b@[j]@,
    ensures
        model(Value::List(a)) == model(Value::List(b)),
{
    assert(model(Value::List(a))->List_0 =~= model(Value::List(b))->List_0);
}

impl Value {
    /// Whether the value counts as true for the logical operators.
    pub fn truthy(&self) -> (r: bool)
        ensures
            r == truthy(self@),
    {
        match self {
            Value::Integer(n) => *n != 0,
            Value::Float(d) => d.digits != 0,
            Value::Boolean(b) => *b,
            Value::String(s) => !s.as_str().is_empty(),
            Value::List(l) => l.len() != 0,
        }
    }

    /// A deep copy of the value.
    pub fn duplicate(&self) -> (r: Value)
        ensures
            r@ == self@,
        decreases self,
    {
        match (self, true) {
            (Value::Integer(n), _) => Value::Integer(*n),
            (Value::Float(d), _) => Value::Float(*d),
            (Value::Boolean(b), _) => Value::Boolean(*b),
            (Value::String(s), _) => Value::String(String::from_str(s.as_str())),
            (Value::List(l), _) => {
                proof {
                    assert(decreases_to!(*self => *l));
                }
                let mut out: Vec<Value> = Vec::new();
                let mut i: usize = 0;
                while i < l.len()
                    invariant
                        *self == Value::List(*l),
                        decreases_to!(*self => *l),
                        i <= l@.len(),
                        out@.len() == i,
                        forall|j: int| 0 <= j < i ==> (#[trigger] out@[j])@ == l@[j]@,
                    decreases l@.len() - i,
                {
                    proof {
                        assert(decreases_to!(*l => l[i as int]));
                    }
                    let e = l[i].duplicate();
                    out.push(e);
                    i = i + 1;
                }
                proof {
                    lemma_list_model_eq(out, *l);
                }
                Value::List(out)
            },
        }
    }

    /// Structural equality: same variant and equal contents, so `2.5` and
    /// `2.50` differ here (the `==` operator compares numbers by value).
    pub fn equals(&self, other: &Value) -> (r: bool)
        ensures
            r == (self@ == other@),
        decreases self,
    {
        match (self, other) {
            (Value::Integer(x), Value::Integer(y)) => *x == *y,
            (Value::Float(x), Value::Float(y)) => x.digits == y.digits && x.scale == y.scale,
            (Value::Boolean(x), Value::Boolean(y)) => *x == *y,
            (Value::String(x), Value::String(y)) => *x == *y,
            (Value::List(x), Value::List(y)) => {
                if x.len() != y.len() {
                    proof {
                        let mx = model(*self);
                        let my = model(*other);
                        if mx == my {
                            assert(mx->List_0.len() == my->List_0.len());
                        }
                    }
                    return false;
                }
                let mut i: usize = 0;
                while i < x.len()
                    invariant
                        *self == Value::List(*x),
                        *other == Value::List(*y),
                        i <= x@.len(),
                        x@.len() == y@.len(),
                        forall|j: int| 0 <= j < i ==> (#[trigger] x@[j])@ == y@[j]@,
                    decreases x@.len() - i,
                {
                    proof {
                        assert(decreases_to!(*self => *x));
                        assert(decreases_to!(*x => x[i as int]));
                    }
                    if !x[i].equals(&y[i]) {
                        proof {
                            assert(model(*self)->List_0[i as int] == x@[i as int]@);
                            assert(model(*other)->List_0[i as int] == y@[i as int]@);
                        }
                        return false;
                    }
                    i = i + 1;
                }
                proof {
                    lemma_list_model_eq(*x, *y);
                }
                true
            },
            _ => false,
        }
    }
}


impl Clone for Value {
    fn clone(&self) -> Self {
        self.duplicate()
    }
}

} // verus!

use vstd::prelude::*;

verus! {

/// The mathematical meaning of a [`Value`].
///
/// Floating-point numbers are carried by their IEEE-754 bit patterns, so
/// two floats are the same value exactly when their bits agree.
pub enum ValueModel {
    Str(Seq<char>),
    Int(i64),
    Float(u64),
    Bool(bool),
    List(Seq<ValueModel>),
    Vector(Seq<u32>),
    Null,
}

/// A value held by an incidence.
///
/// `Float` holds the bits of an `f64` and `Vector` the bits of `f32`
/// components (see `f64::to_bits` / `f32::to_bits`).
#[derive(Debug, PartialEq)]
pub enum Value {
    /// A string.
    Str(String),
    /// An integer.
    Int(i64),
    /// A double-precision float, by its bit pattern.
    Float(u64),
    /// A boolean.
    Bool(bool),
    /// A list of values.
    List(Vec<Value>),
    /// An embedding vector, each component by its `f32` bit pattern.
    Vector(Vec<u32>),
    /// No value.
    Null,
}

impl Value {
    /// The abstract value.
    pub open spec fn model(&self) -> ValueModel
        decreases self,
    {
        match self {
            Value::Str(s) => ValueModel::Str(s@),
            Value::Int(i) => ValueModel::Int(*i),
            Value::Float(f) => ValueModel::Float(*f),
            Value::Bool(b) => ValueModel::Bool(*b),
            Value::List(v) => ValueModel::List(
                Seq::new(v@.len(), |k: int| if 0 <= k < v@.len() { v@[k].model() } else { ValueModel::Null }),
            ),
            Value::Vector(v) => ValueModel::Vector(v@),
            Value::Null => ValueModel::Null,
        }
    }

    /// A copy of this value with the same meaning.
    pub fn deep_copy(&self) -> (r: Value)
        ensures
            r.model() == self.model(),
        decreases self,
    {
        match self {
            Value::Str(s) => {
                let c: String = s.clone();
                assert(c@ == s@);
                Value::Str(c)
            },
            Value::Int(i) => Value::Int(*i),
            Value::Float(f) => Value::Float(*f),
            Value::Bool(b) => Value::Bool(*b),
            Value::List(v) => {
                let mut out: Vec<Value> = Vec::new();
                let mut k: usize = 0;
                while k < v.len()
                    invariant
                        *self == Value::List(*v),
                        k <= v@.len(),
                        out@.len() == k,
                        forall|j: int| 0 <= j < k ==> #[trigger] out@[j].model() == v@[j].model(),
                    decreases v@.len() - k,
                {
                    proof {
                        let ghost me: Value = *self;
                        assert(me is List);
                        assert(decreases_to!(me => me->List_0));
                        assert(me->List_0 == *v);
                        assert(decreases_to!(*v => v@));
                        assert(decreases_to!(v@ => v@[k as int]));
                        assert(decreases_to!(*self => v@[k as int]));
                    }
                    let c = v[k].deep_copy();
                    out.push(c);
                    k = k + 1;
                }
                assert(k == v@.len());
                assert(out@.len() == v@.len());
                let r = Value::List(out);
                assert(r.model()->List_0.len() == out@.len());
                assert(self.model()->List_0.len() == v@.len());
                assert(forall|j: int| 0 <= j < v@.len() ==> r.model()->List_0[j] == out@[j].model());
                assert(forall|j: int| 0 <= j < v@.len() ==> self.model()->List_0[j] == v@[j].model());
                assert(r.model()->List_0 =~= self.model()->List_0);
                r
            },
            Value::Vector(v) => {
                let c = v.clone();
                assert(c@ =~= v@);
                Value::Vector(c)
            },
            Value::Null => Value::Null,
        }
    }
}

impl Value {
    /// Creates a string value.
    pub fn string(s: &str) -> (r: Value)
        ensures
            r.model() == ValueModel::Str(s@),
    {
        Value::Str(String::from_str(s))
    }

    /// Creates an integer value.
    pub fn integer(i: i64) -> (r: Value)
        ensures
            r.model() == ValueModel::Int(i),
    {
        Value::Int(i)
    }

    /// Creates a float value from the bit pattern of an `f64`.
    pub fn float(bits: u64) -> (r: Value)
        ensures
            r.model() == ValueModel::Float(bits),
    {
        Value::Float(bits)
    }

    /// Creates a boolean value.
    pub fn bool(b: bool) -> (r: Value)
        ensures
            r.model() == ValueModel::Bool(b),
    {
        Value::Bool(b)
    }

    /// Creates a vector value from the bit patterns of `f32` components.
    pub fn vector(v: Vec<u32>) -> (r: Value)
        ensures
            r.model() == ValueModel::Vector(v@),
    {
        Value::Vector(v)
    }

    /// Whether two values are equal as values: floats compare as IEEE-754
    /// numbers (see [`value_eq`]), everything else by its contents.
    pub fn same_value(&self, other: &Value) -> (r: bool)
        ensures
            r == value_eq(self.model(), other.model()),
        decreases self,
    {
        match (self, other) {
            (Value::Str(a), Value::Str(b)) => {
                let r = a.eq(b);
                assert(r == (a@ == b@));
                r
            },
            (Value::Int(a), Value::Int(b)) => *a == *b,
            (Value::Float(a), Value::Float(b)) => f64_bits_eq(*a, *b),
            (Value::Bool(a), Value::Bool(b)) => *a == *b,
            (Value::Vector(a), Value::Vector(b)) => f32_slices_eq(a.as_slice(), b.as_slice()),
            (Value::Null, Value::Null) => true,
            (Value::List(a), Value::List(b)) => {
                if a.len() != b.len() {
                    assert(self.model()->List_0.len() != other.model()->List_0.len());
                    return false;
                }
                let mut k: usize = 0;
                while k < a.len()
                    invariant
                        *self == Value::List(*a),
                        *other == Value::List(*b),
                        a@.len() == b@.len(),
                        k <= a@.len(),
                        forall|j: int| 0 <= j < k ==> value_eq(#[trigger] a@[j].model(), b@[j].model()),
                    decreases a@.len() - k,
                {
                    proof {
                        let ghost me: Value = *self;
                        assert(decreases_to!(me => me->List_0));
                        assert(decreases_to!(*a => a@));
                        assert(decreases_to!(a@ => a@[k as int]));
                    }
                    if !a[k].same_value(&b[k]) {
                        assert(self.model()->List_0[k as int] == a@[k as int].model());
                        assert(other.model()->List_0[k as int] == b@[k as int].model());
                        let ghost xs = self.model()->List_0;
                        let ghost ys = other.model()->List_0;
                        assert(self.model() == ValueModel::List(xs));
                        assert(other.model() == ValueModel::List(ys));
                        assert(!value_eq(xs[k as int], ys[k as int]));
                        proof {
                            lemma_value_eq_list(xs, ys);
                        }
                        return false;
                    }
                    k = k + 1;
                }
                assert(forall|j: int| 0 <= j < a@.len() ==> self.model()->List_0[j] == a@[j].model());
                assert(forall|j: int| 0 <= j < b@.len() ==> other.model()->List_0[j] == b@[j].model());
                proof {
                    lemma_value_eq_list(self.model()->List_0, other.model()->List_0);
                }
                true
            },
            _ => {
                false
            },
        }
    }
}

/// Whether the `f64` with bits `b` is a NaN: all exponent bits set and a
/// nonzero fraction.
pub open spec fn f64_is_nan(b: u64) -> bool {
    (b / 0x10_0000_0000_0000) % 0x800 == 0x7ff && b % 0x10_0000_0000_0000 != 0
}

/// Whether the `f64` with bits `b` is `+0.0` or `-0.0`.
pub open spec fn f64_is_zero(b: u64) -> bool {
    b % 0x8000_0000_0000_0000 == 0
}

/// IEEE-754 equality of two `f64` given by their bits (what `f64 ==`
/// decides): no NaN is equal to anything, the two zeros are equal, and
/// otherwise equal numbers have equal bits.
pub open spec fn f64_eq(a: u64, b: u64) -> bool {
    !f64_is_nan(a) && !f64_is_nan(b) && (a == b || (f64_is_zero(a) && f64_is_zero(b)))
}

/// Whether the `f32` with bits `b` is a NaN.
pub open spec fn f32_is_nan(b: u32) -> bool {
    (b / 0x80_0000) % 0x100 == 0xff && b % 0x80_0000 != 0
}

/// Whether the `f32` with bits `b` is `+0.0` or `-0.0`.
pub open spec fn f32_is_zero(b: u32) -> bool {
    b % 0x8000_0000 == 0
}

/// IEEE-754 equality of two `f32` given by their bits (what `f32 ==` decides).
pub open spec fn f32_eq(a: u32, b: u32) -> bool {
    !f32_is_nan(a) && !f32_is_nan(b) && (a == b || (f32_is_zero(a) && f32_is_zero(b)))
}

/// Equality of values as `==` on values decides it: strings, integers and
/// booleans by content, floats and vector components as IEEE-754 numbers,
/// lists element by element.
pub open spec fn value_eq(a: ValueModel, b: ValueModel) -> bool
    decreases a, 0int,
{
    match a {
        ValueModel::Str(x) => b == ValueModel::Str(x),
        ValueModel::Int(x) => b == ValueModel::Int(x),
        ValueModel::Float(x) => match b {
            ValueModel::Float(y) => f64_eq(x, y),
            _ => false,
        },
        ValueModel::Bool(x) => b == ValueModel::Bool(x),
        ValueModel::List(xs) => match b {
            ValueModel::List(ys) => xs.len() == ys.len() && lists_eq_from(xs, ys, 0),
            _ => false,
        },
        ValueModel::Vector(xs) => match b {
            ValueModel::Vector(ys) => xs.len() == ys.len() && forall|k: int|
                0 <= k < xs.len() ==> #[trigger] f32_eq(xs[k], ys[k]),
            _ => false,
        },
        ValueModel::Null => b == ValueModel::Null,
    }
}

/// Whether `xs[k..]` and `ys[k..]` are equal element by element.
pub open spec fn lists_eq_from(xs: Seq<ValueModel>, ys: Seq<ValueModel>, k: int) -> bool
    decreases xs, xs.len() - k,
{
    if k < 0 || k >= xs.len() {
        true
    } else {
        value_eq(xs[k], ys[k]) && lists_eq_from(xs, ys, k + 1)
    }
}

/// `lists_eq_from` is element-wise equality of the rest.
proof fn lemma_lists_eq_from(xs: Seq<ValueModel>, ys: Seq<ValueModel>, k: int)
    requires
        0 <= k <= xs.len(),
    ensures
        lists_eq_from(xs, ys, k) == forall|j: int| k <= j < xs.len() ==> #[trigger] value_eq(xs[j], ys[j]),
    decreases xs.len() - k,
{
    if k < xs.len() {
        lemma_lists_eq_from(xs, ys, k + 1);
        if forall|j: int| k <= j < xs.len() ==> #[trigger] value_eq(xs[j], ys[j]) {
            assert(value_eq(xs[k], ys[k]));
        }
    }
}

/// `value_eq` on two lists, unfolded.
proof fn lemma_value_eq_list(xs: Seq<ValueModel>, ys: Seq<ValueModel>)
    ensures
        value_eq(ValueModel::List(xs), ValueModel::List(ys)) == (xs.len() == ys.len() && forall|k: int|
            0 <= k < xs.len() ==> #[trigger] value_eq(xs[k], ys[k])),
{
    lemma_lists_eq_from(xs, ys, 0);
}

/// Value equality is symmetric.
pub proof fn lemma_value_eq_symmetric(a: ValueModel, b: ValueModel)
    ensures
        value_eq(a, b) ==> value_eq(b, a),
    decreases a,
{
    if let ValueModel::List(xs) = a {
        if let ValueModel::List(ys) = b {
            if value_eq(a, b) {
                lemma_value_eq_list(xs, ys);
                lemma_value_eq_list(ys, xs);
                assert forall|k: int| 0 <= k < ys.len() implies #[trigger] value_eq(ys[k], xs[k]) by {
                    assert(decreases_to!(a => xs[k]));
                    lemma_value_eq_symmetric(xs[k], ys[k]);
                }
            }
        }
    }
    if let ValueModel::Vector(xs) = a {
        if let ValueModel::Vector(ys) = b {
            if value_eq(a, b) {
                assert forall|k: int| 0 <= k < ys.len() implies #[trigger] f32_eq(ys[k], xs[k]) by {
                    assert(f32_eq(xs[k], ys[k]));
                }
            }
        }
    }
}

/// Value equality is transitive.
pub proof fn lemma_value_eq_transitive(a: ValueModel, b: ValueModel, c: ValueModel)
    ensures
        value_eq(a, b) && value_eq(b, c) ==> value_eq(a, c),
    decreases a,
{
    if let ValueModel::List(xs) = a {
        if let ValueModel::List(ys) = b {
            if let ValueModel::List(zs) = c {
                if value_eq(a, b) && value_eq(b, c) {
                    lemma_value_eq_list(xs, ys);
                    lemma_value_eq_list(ys, zs);
                    lemma_value_eq_list(xs, zs);
                    assert forall|k: int| 0 <= k < xs.len() implies #[trigger] value_eq(xs[k], zs[k]) by {
                        assert(decreases_to!(a => xs[k]));
                        assert(value_eq(xs[k], ys[k]));
                        assert(value_eq(ys[k], zs[k]));
                        lemma_value_eq_transitive(xs[k], ys[k], zs[k]);
                    }
                }
            }
        }
    }
    if let ValueModel::Vector(xs) = a {
        if let ValueModel::Vector(ys) = b {
            if let ValueModel::Vector(zs) = c {
                if value_eq(a, b) && value_eq(b, c) {
                    assert forall|k: int| 0 <= k < xs.len() implies #[trigger] f32_eq(xs[k], zs[k]) by {
                        assert(f32_eq(xs[k], ys[k]));
                        assert(f32_eq(ys[k], zs[k]));
                    }
                }
            }
        }
    }
}

/// Equality of optional values is symmetric and transitive.
pub proof fn lemma_opt_value_eq_laws(a: Option<ValueModel>, b: Option<ValueModel>, c: Option<ValueModel>)
    ensures
        opt_value_eq(a, b) ==> opt_value_eq(b, a),
        opt_value_eq(a, b) && opt_value_eq(b, c) ==> opt_value_eq(a, c),
{
    if let Some(x) = a {
        if let Some(y) = b {
            lemma_value_eq_symmetric(x, y);
            if let Some(z) = c {
                lemma_value_eq_transitive(x, y, z);
            }
        }
    }
}

/// Equality of optional values: both absent, or both present and equal.
pub open spec fn opt_value_eq(a: Option<ValueModel>, b: Option<ValueModel>) -> bool {
    match a {
        Some(x) => match b {
            Some(y) => value_eq(x, y),
            None => false,
        },
        None => b is None,
    }
}

/// `f64 ==` on two floats given by their bits.
pub fn f64_bits_eq(a: u64, b: u64) -> (r: bool)
    ensures
        r == f64_eq(a, b),
{
    let a_nan = (a / 0x10_0000_0000_0000) % 0x800 == 0x7ff && a % 0x10_0000_0000_0000 != 0;
    let b_nan = (b / 0x10_0000_0000_0000) % 0x800 == 0x7ff && b % 0x10_0000_0000_0000 != 0;
    !a_nan && !b_nan && (a == b || (a % 0x8000_0000_0000_0000 == 0 && b % 0x8000_0000_0000_0000 == 0))
}

/// `f32 ==` on two floats given by their bits.
pub fn f32_bits_eq(a: u32, b: u32) -> (r: bool)
    ensures
        r == f32_eq(a, b),
{
    let a_nan = (a / 0x80_0000) % 0x100 == 0xff && a % 0x80_0000 != 0;
    let b_nan = (b / 0x80_0000) % 0x100 == 0xff && b % 0x80_0000 != 0;
    !a_nan && !b_nan && (a == b || (a % 0x8000_0000 == 0 && b % 0x8000_0000 == 0))
}

/// `==` on two slices of `f32` given by their bits: the same length and
/// IEEE-equal components.
pub fn f32_slices_eq(a: &[u32], b: &[u32]) -> (r: bool)
    ensures
        r == (a@.len() == b@.len() && forall|k: int| 0 <= k < a@.len() ==> #[trigger] f32_eq(a@[k], b@[k])),
{
    if a.len() != b.len() {
        return false;
    }
    let mut k: usize = 0;
    while k < a.len()
        invariant
            a@.len() == b@.len(),
            k <= a@.len(),
            forall|j: int| 0 <= j < k ==> #[trigger] f32_eq(a@[j], b@[j]),
        decreases a@.len() - k,
    {
        if !f32_bits_eq(a[k], b[k]) {
            return false;
        }
        k = k + 1;
    }
    true
}

impl Clone for Value {
    fn clone(&self) -> (r: Value)
        ensures
            r.model() == self.model(),
    {
        self.deep_copy()
    }
}

} // verus!

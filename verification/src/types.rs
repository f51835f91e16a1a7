//! Runtime values: the closed tagged union flowing through execution, with
//! objects (one graph entity) and arrays, and an exact decimal number type.

use vstd::prelude::*;

verus! {

/// Coarse value categories of the backing store's cells.
#[derive(Clone, Copy, Debug)]
pub enum Type {
    Integer,
    Double,
    String,
    Null,
}

/// An exact decimal: `mant / 10^scale`, negated when `neg` is set.
///
/// Number literals and fractional store cells are carried in this form, so
/// that equality between numbers is exact.
#[derive(Clone, Copy, Debug, PartialEq, Eq, Structural)]
pub struct Num {
    pub neg: bool,
    pub mant: u64,
    pub scale: u32,
}

/// The normal form of a decimal: no trailing fractional zeros, and zero
/// itself is positive with scale zero. Two well-formed decimals denote the
/// same number exactly when they are equal field by field.
pub open spec fn num_wf(n: Num) -> bool {
    &&& (n.mant == 0 ==> !n.neg && n.scale == 0)
    &&& (n.scale > 0 ==> n.mant % 10 != 0)
}

/// Normalization of a raw (sign, mantissa, scale) triple, stripping
/// trailing fractional zeros and canonicalizing zero.
pub open spec fn spec_norm(neg: bool, mant: nat, scale: nat) -> Num
    decreases scale,
{
    if mant == 0 {
        Num { neg: false, mant: 0, scale: 0 }
    } else if scale > 0 && mant % 10 == 0 {
        spec_norm(neg, mant / 10, (scale - 1) as nat)
    } else {
        Num { neg, mant: mant as u64, scale: scale as u32 }
    }
}

pub proof fn lemma_spec_norm_wf(neg: bool, mant: nat, scale: nat)
    requires
        mant <= u64::MAX,
        scale <= u32::MAX,
    ensures
        num_wf(spec_norm(neg, mant, scale)),
        spec_norm(neg, mant, scale).mant <= mant,
        spec_norm(neg, mant, scale).scale <= scale,
    decreases scale,
{
    if mant == 0 {
    } else if scale > 0 && mant % 10 == 0 {
        lemma_spec_norm_wf(neg, mant / 10, (scale - 1) as nat);
    } else {
    }
}

impl Num {
    /// The signed mantissa, the denoted number when `scale` is zero.
    pub open spec fn signed(self) -> int {
        if self.neg {
            -(self.mant as int)
        } else {
            self.mant as int
        }
    }

    /// Whether this decimal denotes the integer `i`. Exact for well-formed
    /// decimals: integral values always normalize to scale zero.
    pub open spec fn denotes_int(self, i: int) -> bool {
        self.scale == 0 && self.signed() == i
    }

    /// The normalized decimal for the raw triple.
    pub fn norm(neg: bool, mant: u64, scale: u32) -> (r: Num)
        ensures
            r == spec_norm(neg, mant as nat, scale as nat),
            num_wf(r),
    {
        proof {
            lemma_spec_norm_wf(neg, mant as nat, scale as nat);
        }
        let mut m: u64 = mant;
        let mut s: u32 = scale;
        while m != 0 && s > 0 && m % 10 == 0
            invariant
                spec_norm(neg, m as nat, s as nat) == spec_norm(neg, mant as nat, scale as nat),
            decreases s,
        {
            m = m / 10;
            s = s - 1;
        }
        if m == 0 {
            Num { neg: false, mant: 0, scale: 0 }
        } else {
            Num { neg, mant: m, scale: s }
        }
    }

    /// The decimal denoting the integer `i`.
    pub fn from_i64(i: i64) -> (r: Num)
        ensures
            num_wf(r),
            r.scale == 0,
            r.signed() == i as int,
    {
        if i < 0 {
            let mag: u64 = if i == i64::MIN {
                9223372036854775808u64
            } else {
                (-i) as u64
            };
            Num { neg: true, mant: mag, scale: 0 }
        } else if i == 0 {
            Num { neg: false, mant: 0, scale: 0 }
        } else {
            Num { neg: false, mant: i as u64, scale: 0 }
        }
    }
}

/// A runtime value: the closed union produced by literals, store cells, and
/// graph entities. Deep copies are taken with [`Value::duplicate`].
#[derive(Debug)]
pub enum Value {
    Int(i64),
    Double(Num),
    String(String),
    Boolean(bool),
    Null,
    Object(Object),
    Array(Array),
}

/// One graph entity: a mapping from property name to value.
#[derive(Debug)]
pub struct Object {
    pub props: Vec<(String, Value)>,
}

/// An ordered collection of values.
#[derive(Debug)]
pub struct Array {
    pub elements: Vec<Value>,
}

/// The mathematical shape of a runtime value; contracts all speak of this.
pub enum SpecValue {
    Int(int),
    Double(Num),
    String(Seq<char>),
    Boolean(bool),
    Null,
    Object(Seq<(Seq<char>, SpecValue)>),
    Array(Seq<SpecValue>),
}

/// The shape of a value.
pub open spec fn vview(v: Value) -> SpecValue
    decreases v,
{
    match v {
        Value::Int(i) => SpecValue::Int(i as int),
        Value::Double(n) => SpecValue::Double(n),
        Value::String(s) => SpecValue::String(s@),
        Value::Boolean(b) => SpecValue::Boolean(b),
        Value::Null => SpecValue::Null,
        Value::Object(o) => SpecValue::Object(
            Seq::new(
                o.props@.len(),
                |i: int|
                    if 0 <= i < o.props@.len() {
                        (o.props@[i].0@, vview(o.props@[i].1))
                    } else {
                        arbitrary()
                    },
            ),
        ),
        Value::Array(a) => SpecValue::Array(
            Seq::new(
                a.elements@.len(),
                |i: int|
                    if 0 <= i < a.elements@.len() {
                        vview(a.elements@[i])
                    } else {
                        arbitrary()
                    },
            ),
        ),
    }
}

/// The shape of an object's property list.
pub open spec fn oview(o: Object) -> Seq<(Seq<char>, SpecValue)> {
    match vview(Value::Object(o)) {
        SpecValue::Object(s) => s,
        _ => arbitrary(),
    }
}

/// The shape of an array's element list.
pub open spec fn aview(a: Array) -> Seq<SpecValue> {
    match vview(Value::Array(a)) {
        SpecValue::Array(s) => s,
        _ => arbitrary(),
    }
}

/// First value bound under `key` in an association list, if any.
pub open spec fn assoc_get(s: Seq<(Seq<char>, SpecValue)>, key: Seq<char>) -> Option<SpecValue>
    decreases s.len(),
{
    if s.len() == 0 {
        None
    } else if s[0].0 == key {
        Some(s[0].1)
    } else {
        assoc_get(s.drop_first(), key)
    }
}

/// Binding `key` to `value`: replaces the first binding in place, or appends
/// a fresh one.
pub open spec fn assoc_set(
    s: Seq<(Seq<char>, SpecValue)>,
    key: Seq<char>,
    value: SpecValue,
) -> Seq<(Seq<char>, SpecValue)>
    decreases s.len(),
{
    if s.len() == 0 {
        seq![(key, value)]
    } else if s[0].0 == key {
        seq![(key, value)] + s.drop_first()
    } else {
        seq![s[0]] + assoc_set(s.drop_first(), key, value)
    }
}

/// Whether two string slices hold the same characters.
pub fn str_eq(a: &str, b: &str) -> (r: bool)
    ensures
        r == (a@ == b@),
{
    let sa = String::from_str(a);
    let sb = String::from_str(b);
    sa == sb
}

impl Object {
    /// An entity with no properties yet.
    pub fn new() -> (r: Object)
        ensures
            oview(r) == Seq::<(Seq<char>, SpecValue)>::empty(),
    {
        let r = Object { props: Vec::new() };
        proof {
            assert(oview(r) =~= Seq::<(Seq<char>, SpecValue)>::empty());
        }
        r
    }

    /// Drops every property.
    pub fn clear(&mut self)
        ensures
            oview(*final(self)) == Seq::<(Seq<char>, SpecValue)>::empty(),
    {
        self.props.clear();
        proof {
            assert(oview(*self) =~= Seq::<(Seq<char>, SpecValue)>::empty());
        }
    }

    /// The property named `prop_name`, if present.
    pub fn get(&self, prop_name: &str) -> (r: Option<&Value>)
        ensures
            match r {
                Some(v) => assoc_get(oview(*self), prop_name@) == Some(vview(*v)),
                None => assoc_get(oview(*self), prop_name@) is None,
            },
    {
        let n: usize = self.props.len();
        let mut i: usize = 0;
        proof {
            assert(oview(*self).skip(0) =~= oview(*self));
        }
        while i < n
            invariant
                n == self.props@.len(),
                i <= n,
                assoc_get(oview(*self), prop_name@) == assoc_get(
                    oview(*self).skip(i as int),
                    prop_name@,
                ),
            decreases n - i,
        {
            proof {
                assert(oview(*self).skip(i as int)[0] == (
                    self.props@[i as int].0@,
                    vview(self.props@[i as int].1),
                ));
                assert(oview(*self).skip(i as int).drop_first() =~= oview(*self).skip(i + 1));
            }
            if str_eq(self.props[i].0.as_str(), prop_name) {
                return Some(&self.props[i].1);
            }
            i = i + 1;
        }
        proof {
            assert(oview(*self).skip(n as int) =~= Seq::<(Seq<char>, SpecValue)>::empty());
        }
        None
    }

    /// Binds `prop_name` to `value`, replacing any previous binding.
    pub fn set(&mut self, prop_name: &str, value: &Value)
        ensures
            oview(*final(self)) == assoc_set(oview(*old(self)), prop_name@, vview(*value)),
    {
        let n: usize = self.props.len();
        let mut i: usize = 0;
        while i < n
            invariant
                n == self.props@.len(),
                i <= n,
                *self == *old(self),
                forall|k: int| 0 <= k < i ==> oview(*self)[k].0 != prop_name@,
            decreases n - i,
        {
            proof {
                assert(oview(*self)[i as int] == (
                    self.props@[i as int].0@,
                    vview(self.props@[i as int].1),
                ));
            }
            if str_eq(self.props[i].0.as_str(), prop_name) {
                let copy = value.duplicate();
                self.props.set(i, (String::from_str(prop_name), copy));
                proof {
                    lemma_assoc_set_replaces(oview(*old(self)), prop_name@, vview(*value), i as int);
                    assert(oview(*self) =~= oview(*old(self)).update(
                        i as int,
                        (prop_name@, vview(*value)),
                    ));
                }
                return ;
            }
            i = i + 1;
        }
        let copy = value.duplicate();
        self.props.push((String::from_str(prop_name), copy));
        proof {
            lemma_assoc_set_appends(oview(*old(self)), prop_name@, vview(*value));
            assert(oview(*self) =~= oview(*old(self)).push((prop_name@, vview(*value))));
        }
    }
}

/// When no binding matches, `assoc_set` appends.
pub proof fn lemma_assoc_set_appends(s: Seq<(Seq<char>, SpecValue)>, key: Seq<char>, value: SpecValue)
    requires
        forall|k: int| 0 <= k < s.len() ==> s[k].0 != key,
    ensures
        assoc_set(s, key, value) == s.push((key, value)),
    decreases s.len(),
{
    if s.len() == 0 {
        assert(assoc_set(s, key, value) =~= s.push((key, value)));
    } else {
        assert(forall|k: int| 0 <= k < s.drop_first().len() ==> s.drop_first()[k] == s[k + 1]);
        lemma_assoc_set_appends(s.drop_first(), key, value);
        assert(assoc_set(s, key, value) =~= s.push((key, value)));
    }
}

/// When the first match is at index `i`, `assoc_set` updates in place.
pub proof fn lemma_assoc_set_replaces(
    s: Seq<(Seq<char>, SpecValue)>,
    key: Seq<char>,
    value: SpecValue,
    i: int,
)
    requires
        0 <= i < s.len(),
        s[i].0 == key,
        forall|k: int| 0 <= k < i ==> s[k].0 != key,
    ensures
        assoc_set(s, key, value) == s.update(i, (key, value)),
    decreases i,
{
    if i == 0 {
        assert(assoc_set(s, key, value) =~= s.update(0, (key, value)));
    } else {
        assert(forall|k: int| 0 <= k < s.drop_first().len() ==> s.drop_first()[k] == s[k + 1]);
        lemma_assoc_set_replaces(s.drop_first(), key, value, i - 1);
        assert(assoc_set(s, key, value) =~= s.update(i, (key, value)));
    }
}

impl Array {
    /// An empty array.
    pub fn new() -> (r: Array)
        ensures
            aview(r) == Seq::<SpecValue>::empty(),
    {
        let r = Array { elements: Vec::new() };
        proof {
            assert(aview(r) =~= Seq::<SpecValue>::empty());
        }
        r
    }

    /// Drops every element.
    pub fn clear(&mut self)
        ensures
            aview(*final(self)) == Seq::<SpecValue>::empty(),
    {
        self.elements.clear();
        proof {
            assert(aview(*self) =~= Seq::<SpecValue>::empty());
        }
    }

    /// The element at `index`, if in range.
    pub fn get(&self, index: usize) -> (r: Option<&Value>)
        ensures
            match r {
                Some(v) => index < aview(*self).len() && vview(*v) == aview(*self)[index as int],
                None => index >= aview(*self).len(),
            },
    {
        if index < self.elements.len() {
            Some(&self.elements[index])
        } else {
            None
        }
    }

    /// Inserts a copy of `value` at `index`, shifting what follows.
    pub fn set(&mut self, index: usize, value: &Value)
        requires
            index <= aview(*old(self)).len(),
            aview(*old(self)).len() < usize::MAX,
        ensures
            aview(*final(self)) == aview(*old(self)).insert(index as int, vview(*value)),
    {
        let copy = value.duplicate();
        self.elements.insert(index, copy);
        proof {
            assert(aview(*self) =~= aview(*old(self)).insert(index as int, vview(*value)));
        }
    }

    /// Appends a copy of `value`.
    pub fn push_back(&mut self, value: &Value)
        ensures
            aview(*final(self)) == aview(*old(self)).push(vview(*value)),
    {
        let copy = value.duplicate();
        self.elements.push(copy);
        proof {
            assert(aview(*self) =~= aview(*old(self)).push(vview(*value)));
        }
    }

    /// Removes the last element, if any.
    pub fn pop_back(&mut self)
        ensures
            old(self).elements@.len() == 0 ==> aview(*final(self)) == aview(*old(self)),
            old(self).elements@.len() > 0 ==> aview(*final(self)) == aview(*old(self)).drop_last(),
    {
        if self.elements.len() > 0 {
            self.elements.pop();
            proof {
                assert(aview(*self) =~= aview(*old(self)).drop_last());
            }
        }
    }
}

impl Value {
    /// A deep copy denoting the same value.
    pub fn duplicate(&self) -> (r: Value)
        ensures
            vview(r) == vview(*self),
        decreases *self,
    {
        match self {
            Value::Int(i) => Value::Int(*i),
            Value::Double(n) => Value::Double(*n),
            Value::String(s) => Value::String(s.clone()),
            Value::Boolean(b) => Value::Boolean(*b),
            Value::Null => Value::Null,
            Value::Object(o) => {
                let mut props: Vec<(String, Value)> = Vec::new();
                let n: usize = o.props.len();
                let mut i: usize = 0;
                while i < n
                    invariant
                        n == o.props@.len(),
                        i <= n,
                        props@.len() == i,
                        *self == Value::Object(*o),
                        vview(*self) == SpecValue::Object(oview(*o)),
                        forall|k: int|
                            0 <= k < i ==> (props@[k].0@, vview(props@[k].1)) == oview(*o)[k],
                    decreases n - i,
                {
                    proof {
                        assert(decreases_to!(*self => *o));
                        assert(decreases_to!(*o => o.props));
                        assert(decreases_to!(o.props => o.props@));
                        assert(decreases_to!(o.props@ => o.props@[i as int]));
                        assert(decreases_to!(o.props@[i as int] => o.props@[i as int].1));
                        assert(oview(*o)[i as int] == (
                            o.props@[i as int].0@,
                            vview(o.props@[i as int].1),
                        ));
                    }
                    let name = o.props[i].0.clone();
                    let v = o.props[i].1.duplicate();
                    props.push((name, v));
                    i = i + 1;
                }
                let r = Value::Object(Object { props });
                proof {
                    assert(oview(Object { props }) =~= oview(*o));
                }
                r
            },
            Value::Array(a) => {
                let mut elements: Vec<Value> = Vec::new();
                let n: usize = a.elements.len();
                let mut i: usize = 0;
                while i < n
                    invariant
                        n == a.elements@.len(),
                        i <= n,
                        elements@.len() == i,
                        *self == Value::Array(*a),
                        vview(*self) == SpecValue::Array(aview(*a)),
                        forall|k: int| 0 <= k < i ==> vview(elements@[k]) == aview(*a)[k],
                    decreases n - i,
                {
                    proof {
                        assert(decreases_to!(*self => *a));
                        assert(decreases_to!(*a => a.elements));
                        assert(decreases_to!(a.elements => a.elements@));
                        assert(decreases_to!(a.elements@ => a.elements@[i as int]));
                        assert(aview(*a)[i as int] == vview(a.elements@[i as int]));
                    }
                    let v = a.elements[i].duplicate();
                    elements.push(v);
                    i = i + 1;
                }
                let r = Value::Array(Array { elements });
                proof {
                    assert(aview(Array { elements }) =~= aview(*a));
                }
                r
            },
        }
    }

    /// Structural equality on values, the join comparison: no numeric
    /// widening here, an integer and a decimal never compare equal.
    pub fn same(&self, other: &Value) -> (r: bool)
        ensures
            r == (vview(*self) == vview(*other)),
        decreases *self,
    {
        match (self, other) {
            (Value::Int(a), Value::Int(b)) => a == b,
            (Value::Double(a), Value::Double(b)) => a == b,
            (Value::String(a), Value::String(b)) => str_eq(a.as_str(), b.as_str()),
            (Value::Boolean(a), Value::Boolean(b)) => *a == *b,
            (Value::Null, Value::Null) => true,
            (Value::Object(a), Value::Object(b)) => {
                let na: usize = a.props.len();
                let nb: usize = b.props.len();
                if na != nb {
                    proof {
                        assert(oview(*a).len() != oview(*b).len());
                    }
                    return false;
                }
                let mut i: usize = 0;
                while i < na
                    invariant
                        na == a.props@.len(),
                        na == b.props@.len(),
                        i <= na,
                        *self == Value::Object(*a),
                        vview(*self) == SpecValue::Object(oview(*a)),
                        vview(*other) == SpecValue::Object(oview(*b)),
                        forall|k: int| 0 <= k < i ==> oview(*a)[k] == oview(*b)[k],
                    decreases na - i,
                {
                    proof {
                        assert(decreases_to!(*self => *a));
                        assert(decreases_to!(*a => a.props));
                        assert(decreases_to!(a.props => a.props@));
                        assert(decreases_to!(a.props@ => a.props@[i as int]));
                        assert(decreases_to!(a.props@[i as int] => a.props@[i as int].1));
                        assert(oview(*a)[i as int] == (
                            a.props@[i as int].0@,
                            vview(a.props@[i as int].1),
                        ));
                        assert(oview(*b)[i as int] == (
                            b.props@[i as int].0@,
                            vview(b.props@[i as int].1),
                        ));
                    }
                    let keys_eq = str_eq(a.props[i].0.as_str(), b.props[i].0.as_str());
                    if !keys_eq {
                        proof {
                            assert(oview(*a)[i as int].0 != oview(*b)[i as int].0);
                        }
                        return false;
                    }
                    let vals_eq = a.props[i].1.same(&b.props[i].1);
                    if !vals_eq {
                        proof {
                            assert(oview(*a)[i as int].1 != oview(*b)[i as int].1);
                        }
                        return false;
                    }
                    i = i + 1;
                }
                proof {
                    assert(oview(*a) =~= oview(*b));
                }
                true
            },
            (Value::Array(a), Value::Array(b)) => {
                let na: usize = a.elements.len();
                let nb: usize = b.elements.len();
                if na != nb {
                    proof {
                        assert(aview(*a).len() != aview(*b).len());
                    }
                    return false;
                }
                let mut i: usize = 0;
                while i < na
                    invariant
                        na == a.elements@.len(),
                        na == b.elements@.len(),
                        i <= na,
                        *self == Value::Array(*a),
                        vview(*self) == SpecValue::Array(aview(*a)),
                        vview(*other) == SpecValue::Array(aview(*b)),
                        forall|k: int| 0 <= k < i ==> aview(*a)[k] == aview(*b)[k],
                    decreases na - i,
                {
                    proof {
                        assert(decreases_to!(*self => *a));
                        assert(decreases_to!(*a => a.elements));
                        assert(decreases_to!(a.elements => a.elements@));
                        assert(decreases_to!(a.elements@ => a.elements@[i as int]));
                        assert(aview(*a)[i as int] == vview(a.elements@[i as int]));
                        assert(aview(*b)[i as int] == vview(b.elements@[i as int]));
                    }
                    let vals_eq = a.elements[i].same(&b.elements[i]);
                    if !vals_eq {
                        proof {
                            assert(aview(*a)[i as int] != aview(*b)[i as int]);
                        }
                        return false;
                    }
                    i = i + 1;
                }
                proof {
                    assert(aview(*a) =~= aview(*b));
                }
                true
            },
            _ => {
                proof {
                    lemma_vview_tags(*self, *other);
                }
                false
            },
        }
    }
}

/// Values of different variants have different shapes.
proof fn lemma_vview_tags(a: Value, b: Value)
    ensures
        (vview(a) == vview(b)) ==> ((a is Int <==> b is Int) && (a is Double <==> b is Double) && (
        a is String <==> b is String) && (a is Boolean <==> b is Boolean) && (a is Null <==> b
            is Null) && (a is Object <==> b is Object) && (a is Array <==> b is Array)),
{
}

} // verus!

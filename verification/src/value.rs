//! `Value`: the typed payload that flows through the blackboard, along edges
//! and out of agents.
//!
//! Every value has a mathematical view (`ValueView`) in which strings are
//! character sequences and vectors are sequences; contracts speak of views.
//! Equality of objects is order-independent: two objects with the same fields
//! in a different order are equal.

use vstd::prelude::*;
use vstd::string::StringExecFns;

verus! {

broadcast use vstd::std_specs::vec::group_vec_axioms;

/// The payload type.
#[derive(Debug)]
pub enum Value {
    Null,
    Bool(bool),
    Int(i64),
    /// (mantissa, scale): `mantissa / 10^scale`, kept as integers.
    FloatI(i64, u64),
    Str(String),
    /// A structured object: field name -> value.
    Object(Vec<(String, Value)>),
    /// An ordered list.
    List(Vec<Value>),
    /// An opaque blob with a mime hint.
    Blob(String, Vec<u8>),
}

/// The mathematical model of a `Value`.
pub enum ValueView {
    Null,
    Bool(bool),
    Int(i64),
    FloatI(i64, u64),
    Str(Seq<char>),
    Object(Seq<(Seq<char>, ValueView)>),
    List(Seq<ValueView>),
    Blob(Seq<char>, Seq<u8>),
}

impl View for Value {
    type V = ValueView;

    open spec fn view(&self) -> ValueView {
        value_view(*self)
    }
}

/// The view of a value.
pub open spec fn value_view(v: Value) -> ValueView
    decreases v, 0nat,
{
    match v {
        Value::Null => ValueView::Null,
        Value::Bool(b) => ValueView::Bool(b),
        Value::Int(i) => ValueView::Int(i),
        Value::FloatI(m, s) => ValueView::FloatI(m, s),
        Value::Str(s) => ValueView::Str(s@),
        Value::Object(fields) => ValueView::Object(
            field_view_prefix(fields@, fields@.len() as int),
        ),
        Value::List(items) => ValueView::List(item_view_prefix(items@, items@.len() as int)),
        Value::Blob(mime, bytes) => ValueView::Blob(mime@, bytes@),
    }
}

/// Views of the first `n` items.
pub open spec fn item_view_prefix(items: Seq<Value>, n: int) -> Seq<ValueView>
    decreases items, n,
{
    if n <= 0 || n > items.len() {
        Seq::empty()
    } else {
        item_view_prefix(items, n - 1).push(value_view(items[n - 1]))
    }
}

/// Views of the first `n` fields.
pub open spec fn field_view_prefix(fields: Seq<(String, Value)>, n: int) -> Seq<
    (Seq<char>, ValueView),
>
    decreases fields, n,
{
    if n <= 0 || n > fields.len() {
        Seq::empty()
    } else {
        field_view_prefix(fields, n - 1).push((fields[n - 1].0@, value_view(fields[n - 1].1)))
    }
}

proof fn lemma_item_view_prefix(items: Seq<Value>, n: int)
    requires
        0 <= n <= items.len(),
    ensures
        item_view_prefix(items, n) =~= Seq::new(n as nat, |i: int| items[i]@),
    decreases n,
{
    if n > 0 {
        lemma_item_view_prefix(items, n - 1);
    }
}

proof fn lemma_field_view_prefix(fields: Seq<(String, Value)>, n: int)
    requires
        0 <= n <= fields.len(),
    ensures
        field_view_prefix(fields, n) =~= Seq::new(n as nat, |i: int| (fields[i].0@, fields[i].1@)),
    decreases n,
{
    if n > 0 {
        lemma_field_view_prefix(fields, n - 1);
    }
}

/// Nesting rank of a view: leaves have rank 0, a container is one more than
/// its highest child.
pub open spec fn rank(v: ValueView) -> nat
    decreases v, 0nat,
{
    match v {
        ValueView::Object(fields) => 1 + rank_fields(fields, fields.len() as int),
        ValueView::List(items) => 1 + rank_items(items, items.len() as int),
        _ => 0,
    }
}

/// Highest rank among the first `n` items.
pub open spec fn rank_items(items: Seq<ValueView>, n: int) -> nat
    decreases items, n,
{
    if n <= 0 || n > items.len() {
        0
    } else {
        let a = rank(items[n - 1]);
        let b = rank_items(items, n - 1);
        if a > b {
            a
        } else {
            b
        }
    }
}

/// Highest rank among the values of the first `n` fields.
pub open spec fn rank_fields(fields: Seq<(Seq<char>, ValueView)>, n: int) -> nat
    decreases fields, n,
{
    if n <= 0 || n > fields.len() {
        0
    } else {
        let a = rank(fields[n - 1].1);
        let b = rank_fields(fields, n - 1);
        if a > b {
            a
        } else {
            b
        }
    }
}

proof fn lemma_rank_items(items: Seq<ValueView>, n: int, i: int)
    requires
        0 <= i < n <= items.len(),
    ensures
        rank(items[i]) <= rank_items(items, n),
    decreases n,
{
    if i < n - 1 {
        lemma_rank_items(items, n - 1, i);
    }
}

proof fn lemma_rank_fields(fields: Seq<(Seq<char>, ValueView)>, n: int, i: int)
    requires
        0 <= i < n <= fields.len(),
    ensures
        rank(fields[i].1) <= rank_fields(fields, n),
    decreases n,
{
    if i < n - 1 {
        lemma_rank_fields(fields, n - 1, i);
    }
}

/// Every item of a list has a lower rank than the list.
pub proof fn lemma_item_rank(items: Seq<ValueView>, i: int)
    requires
        0 <= i < items.len(),
    ensures
        rank(items[i]) < rank(ValueView::List(items)),
{
    lemma_rank_items(items, items.len() as int, i);
}

/// Every field value of an object has a lower rank than the object.
pub proof fn lemma_field_rank(fields: Seq<(Seq<char>, ValueView)>, i: int)
    requires
        0 <= i < fields.len(),
    ensures
        rank(fields[i].1) < rank(ValueView::Object(fields)),
{
    lemma_rank_fields(fields, fields.len() as int, i);
}

/// The name of the `j`-th field of `f`.
pub open spec fn field_name(f: Seq<(Seq<char>, ValueView)>, j: int) -> Seq<char> {
    f[j].0
}

/// The equality that `==` computes on values: objects compare as maps
/// (same number of fields, each field of either one matched by a field of
/// the other with the same name and an equal value), lists compare
/// element-wise, everything else compares structurally.
pub open spec fn value_eq(a: ValueView, b: ValueView) -> bool
    decreases rank(a) + rank(b),
{
    match a {
        ValueView::Object(x) => match b {
            ValueView::Object(y) => {
                &&& x.len() == y.len()
                &&& forall|i: int|
                    #![trigger field_name(x, i)]
                    0 <= i < x.len() ==> exists|j: int|
                        #![trigger y[j]]
                        0 <= j < y.len() && y[j].0 == field_name(x, i) && {
                            proof {
                                lemma_field_rank(x, i);
                                lemma_field_rank(y, j);
                            }
                            value_eq(x[i].1, y[j].1)
                        }
                &&& forall|j: int|
                    #![trigger field_name(y, j)]
                    0 <= j < y.len() ==> exists|i: int|
                        #![trigger x[i]]
                        0 <= i < x.len() && x[i].0 == field_name(y, j) && {
                            proof {
                                lemma_field_rank(x, i);
                                lemma_field_rank(y, j);
                            }
                            value_eq(y[j].1, x[i].1)
                        }
            },
            _ => false,
        },
        ValueView::List(x) => match b {
            ValueView::List(y) => {
                &&& x.len() == y.len()
                &&& forall|i: int|
                    #![trigger x[i]]
                    0 <= i < x.len() ==> {
                        proof {
                            lemma_item_rank(x, i);
                            lemma_item_rank(y, i);
                        }
                        value_eq(x[i], y[i])
                    }
            },
            _ => false,
        },
        _ => a == b,
    }
}

/// Law: value equality is symmetric; `a == b` exactly when `b == a`.
pub proof fn law_value_eq_symmetric(a: ValueView, b: ValueView)
    ensures
        value_eq(a, b) == value_eq(b, a),
    decreases rank(a) + rank(b),
{
    if a is Object && b is Object {
        // the two matching conditions of an object swap places
        assert(value_eq(a, b) == value_eq(b, a));
    } else if a is List && b is List {
        let x = a->List_0;
        let y = b->List_0;
        if x.len() == y.len() {
            assert forall|i: int| 0 <= i < x.len() implies #[trigger] value_eq(x[i], y[i]) == value_eq(y[i], x[i]) by {
                lemma_item_rank(x, i);
                lemma_item_rank(y, i);
                law_value_eq_symmetric(x[i], y[i]);
            }
            if value_eq(a, b) {
                assert forall|i: int| #![trigger y[i]] 0 <= i < y.len() implies value_eq(y[i], x[i]) by {
                    assert(value_eq(x[i], y[i]));
                }
            }
            if value_eq(b, a) {
                assert forall|i: int| #![trigger x[i]] 0 <= i < x.len() implies value_eq(x[i], y[i]) by {
                    assert(value_eq(y[i], x[i]));
                }
            }
        } else {
            assert(!value_eq(a, b) && !value_eq(b, a));
        }
    } else {
        assert(value_eq(a, b) == value_eq(b, a));
    }
}

/// Every field of `x` is matched by a field of `y` with the same name and a
/// value equal to it.
pub open spec fn fields_matched(x: Seq<(Seq<char>, ValueView)>, y: Seq<(Seq<char>, ValueView)>) -> bool {
    forall|i: int|
        #![trigger field_name(x, i)]
        0 <= i < x.len() ==> exists|j: int| #![trigger y[j]] 0 <= j < y.len() && y[j].0 == field_name(x, i) && value_eq(x[i].1, y[j].1)
}

/// The views of `Value`s in a vector.
pub open spec fn views_of(items: Seq<Value>) -> Seq<ValueView> {
    Seq::new(items.len(), |i: int| items[i]@)
}

/// The views of the fields of an object.
pub open spec fn field_views(fields: Seq<(String, Value)>) -> Seq<(Seq<char>, ValueView)> {
    Seq::new(fields.len(), |i: int| (fields[i].0@, fields[i].1@))
}

/// The view of a list is the list of its items' views.
pub proof fn lemma_list_view(items: Vec<Value>)
    ensures
        Value::List(items)@ == ValueView::List(views_of(items@)),
{
    lemma_item_view_prefix(items@, items@.len() as int);
}

/// The view of an object is the list of its fields' views.
pub proof fn lemma_object_view(fields: Vec<(String, Value)>)
    ensures
        Value::Object(fields)@ == ValueView::Object(field_views(fields@)),
{
    lemma_field_view_prefix(fields@, fields@.len() as int);
}

/// The structural signature of a view, up to `depth` levels of nesting.
pub open spec fn shape_of(v: ValueView, depth: u8) -> Seq<char>
    decreases v, 0nat,
{
    match v {
        ValueView::Null => "Null"@,
        ValueView::Bool(_) => "Bool"@,
        ValueView::Int(_) => "Int"@,
        ValueView::FloatI(_, _) => "Float"@,
        ValueView::Str(_) => "Str"@,
        ValueView::Blob(mime, _) => "Blob("@ + mime + ")"@,
        ValueView::List(items) => if depth == 0 || items.len() == 0 {
            "List"@
        } else {
            "List["@ + shape_of(items[0], (depth - 1) as u8) + "]"@
        },
        ValueView::Object(fields) => if depth == 0 || fields.len() == 0 {
            "Object"@
        } else {
            "Object{"@ + shape_fields(fields, (depth - 1) as u8, fields.len() as int) + "}"@
        },
    }
}

/// `name:shape` for the first `n` fields, separated by commas.
pub open spec fn shape_fields(fields: Seq<(Seq<char>, ValueView)>, depth: u8, n: int) -> Seq<
    char,
>
    decreases fields, n,
{
    if n <= 0 || n > fields.len() {
        Seq::empty()
    } else {
        let entry = fields[n - 1].0 + ":"@ + shape_of(fields[n - 1].1, depth);
        if n == 1 {
            entry
        } else {
            shape_fields(fields, depth, n - 1) + ","@ + entry
        }
    }
}

impl Clone for Value {
    fn clone(&self) -> (r: Self)
        ensures
            r@ == self@,
        decreases self,
    {
        match self {
            Value::Null => Value::Null,
            Value::Bool(b) => Value::Bool(*b),
            Value::Int(i) => Value::Int(*i),
            Value::FloatI(m, s) => Value::FloatI(*m, *s),
            Value::Str(s) => Value::Str(s.clone()),
            Value::Blob(mime, bytes) => Value::Blob(mime.clone(), bytes.clone()),
            Value::List(items) => {
                let mut out: Vec<Value> = Vec::new();
                let mut i: usize = 0;
                while i < items.len()
                    invariant
                        i <= items.len(),
                        out.len() == i,
                        *self == Value::List(*items),
                        forall|k: int| 0 <= k < i ==> #[trigger] out[k]@ == items[k]@,
                    decreases items.len() - i,
                {
                    proof {
                        assert(decreases_to!(*items => items[i as int]));
                        assert(decreases_to!(*self => (*self)->List_0));
                    }
                    out.push(items[i].clone());
                    i = i + 1;
                }
                proof {
                    lemma_list_view(out);
                    lemma_list_view(*items);
                    assert(views_of(out@) =~= views_of(items@));
                }
                Value::List(out)
            },
            Value::Object(fields) => {
                let mut out: Vec<(String, Value)> = Vec::new();
                let mut i: usize = 0;
                while i < fields.len()
                    invariant
                        i <= fields.len(),
                        out.len() == i,
                        *self == Value::Object(*fields),
                        forall|k: int|
                            0 <= k < i ==> #[trigger] out[k].0@ == fields[k].0@ && out[k].1@
                                == fields[k].1@,
                    decreases fields.len() - i,
                {
                    proof {
                        assert(decreases_to!(*fields => fields[i as int]));
                        assert(decreases_to!(*self => (*self)->Object_0));
                    }
                    let v = fields[i].1.clone();
                    out.push((fields[i].0.clone(), v));
                    i = i + 1;
                }
                proof {
                    lemma_object_view(out);
                    lemma_object_view(*fields);
                    assert(field_views(out@) =~= field_views(fields@));
                }
                Value::Object(out)
            },
        }
    }
}

impl PartialEq for Value {
    fn eq(&self, other: &Self) -> (r: bool) {
        self.equals(other)
    }
}

impl vstd::std_specs::cmp::PartialEqSpecImpl for Value {
    open spec fn obeys_eq_spec() -> bool {
        true
    }

    open spec fn eq_spec(&self, other: &Value) -> bool {
        value_eq(self@, other@)
    }
}

impl Value {
    /// The equality that `==` computes (see `value_eq`).
    pub fn equals(&self, other: &Value) -> (r: bool)
        ensures
            r == value_eq(self@, other@),
        decreases rank(self@) + rank(other@), 1int,
    {
        match (self, other) {
            (Value::Object(a), Value::Object(b)) => {
                let ghost x = field_views(a@);
                let ghost y = field_views(b@);
                proof {
                    lemma_object_view(*a);
                    lemma_object_view(*b);
                }
                assert(self@ == ValueView::Object(x));
                assert(other@ == ValueView::Object(y));
                if a.len() != b.len() {
                    assert(x.len() != y.len());
                    return false;
                }
                let l = Self::fields_matched_in(a, b);
                if !l {
                    return false;
                }
                Self::fields_matched_in(b, a)
            },
            (Value::List(a), Value::List(b)) => {
                let ghost x = views_of(a@);
                let ghost y = views_of(b@);
                proof {
                    lemma_list_view(*a);
                    lemma_list_view(*b);
                }
                if a.len() != b.len() {
                    return false;
                }
                assert(self@ == ValueView::List(x));
                assert(other@ == ValueView::List(y));
                let mut i: usize = 0;
                while i < a.len()
                    invariant
                        i <= a.len(),
                        a.len() == b.len(),
                        self@ == ValueView::List(x),
                        other@ == ValueView::List(y),
                        x == views_of(a@),
                        y == views_of(b@),
                        forall|k: int| #![trigger x[k]] 0 <= k < i ==> value_eq(x[k], y[k]),
                    decreases a.len() - i,
                {
                    proof {
                        lemma_item_rank(x, i as int);
                        lemma_item_rank(y, i as int);
                    }
                    if !a[i].equals(&b[i]) {
                        return false;
                    }
                    i = i + 1;
                }
                true
            },
            (Value::Null, Value::Null) => true,
            (Value::Bool(p), Value::Bool(q)) => *p == *q,
            (Value::Int(p), Value::Int(q)) => *p == *q,
            (Value::FloatI(p, s), Value::FloatI(q, t)) => *p == *q && *s == *t,
            (Value::Str(p), Value::Str(q)) => *p == *q,
            (Value::Blob(m1, d1), Value::Blob(m2, d2)) => {
                if !(*m1 == *m2) || d1.len() != d2.len() {
                    return false;
                }
                let mut i: usize = 0;
                while i < d1.len()
                    invariant
                        i <= d1.len(),
                        d1.len() == d2.len(),
                        *self == Value::Blob(*m1, *d1),
                        *other == Value::Blob(*m2, *d2),
                        m1@ == m2@,
                        forall|k: int| 0 <= k < i ==> d1@[k] == d2@[k],
                    decreases d1.len() - i,
                {
                    if d1[i] != d2[i] {
                        return false;
                    }
                    i = i + 1;
                }
                assert(d1@ =~= d2@);
                true
            },
            _ => false,
        }
    }

    /// Is every field of `a` matched by a field of `b` with the same name and
    /// an equal value?
    fn fields_matched_in(a: &Vec<(String, Value)>, b: &Vec<(String, Value)>) -> (r: bool)
        ensures
            r == fields_matched(field_views(a@), field_views(b@)),
        decreases rank(ValueView::Object(field_views(a@))) + rank(ValueView::Object(field_views(b@))), 0int,
    {
        let ghost x = field_views(a@);
        let ghost y = field_views(b@);
        let mut i: usize = 0;
        while i < a.len()
            invariant
                i <= a.len(),
                x == field_views(a@),
                y == field_views(b@),
                forall|k: int|
                    #![trigger field_name(x, k)]
                    0 <= k < i ==> exists|j: int|
                        #![trigger y[j]]
                        0 <= j < y.len() && y[j].0 == field_name(x, k) && value_eq(x[k].1, y[j].1),
            decreases a.len() - i,
        {
            let mut j: usize = 0;
            let mut found = false;
            while j < b.len()
                invariant
                    i < a.len(),
                    j <= b.len(),
                    x == field_views(a@),
                    y == field_views(b@),
                    found ==> exists|jj: int|
                        #![trigger y[jj]]
                        0 <= jj < y.len() && y[jj].0 == x[i as int].0 && value_eq(x[i as int].1, y[jj].1),
                    !found ==> forall|jj: int|
                        #![trigger y[jj]]
                        0 <= jj < j ==> !(y[jj].0 == x[i as int].0 && value_eq(x[i as int].1, y[jj].1)),
                decreases b.len() - j,
            {
                if !found && b[j].0 == a[i].0 {
                    proof {
                        lemma_field_rank(x, i as int);
                        lemma_field_rank(y, j as int);
                    }
                    if a[i].1.equals(&b[j].1) {
                        found = true;
                    }
                }
                j = j + 1;
            }
            if !found {
                assert(field_name(x, i as int) == x[i as int].0);
                return false;
            }
            i = i + 1;
        }
        true
    }

    pub fn null() -> (r: Value)
        ensures
            r@ == ValueView::Null,
    {
        Value::Null
    }

    pub fn bool(b: bool) -> (r: Value)
        ensures
            r@ == ValueView::Bool(b),
    {
        Value::Bool(b)
    }

    pub fn integer(i: i64) -> (r: Value)
        ensures
            r@ == ValueView::Int(i),
    {
        Value::Int(i)
    }

    pub fn str(s: &str) -> (r: Value)
        ensures
            r@ == ValueView::Str(s@),
    {
        Value::Str(String::from_str(s))
    }

    /// An object with the given fields, in the given order.
    pub fn obj(pairs: Vec<(&str, Value)>) -> (r: Value)
        ensures
            r@ == ValueView::Object(Seq::new(pairs.len() as nat, |i: int| (pairs[i].0@, pairs[i].1@))),
    {
        let ghost expected = Seq::new(pairs.len() as nat, |i: int| (pairs@[i].0@, pairs@[i].1@));
        let n = pairs.len();
        let mut out: Vec<(String, Value)> = Vec::new();
        let mut rest = pairs;
        // Take the pairs from the back, then restore the order.
        let mut rev: Vec<(String, Value)> = Vec::new();
        while rest.len() > 0
            invariant
                rest.len() + rev.len() == n,
                forall|k: int|
                    0 <= k < rest.len() ==> (#[trigger] rest@[k]).0@ == expected[k].0
                        && rest@[k].1@ == expected[k].1,
                forall|k: int|
                    0 <= k < rev.len() ==> (#[trigger] rev@[k]).0@ == expected[n - 1 - k].0
                        && rev@[k].1@ == expected[n - 1 - k].1,
                expected.len() == n,
            decreases rest.len(),
        {
            let (k, v) = rest.pop().unwrap();
            rev.push((String::from_str(k), v));
        }
        while rev.len() > 0
            invariant
                out.len() + rev.len() == n,
                forall|k: int|
                    0 <= k < rev.len() ==> (#[trigger] rev@[k]).0@ == expected[n - 1 - k].0
                        && rev@[k].1@ == expected[n - 1 - k].1,
                forall|k: int|
                    0 <= k < out.len() ==> (#[trigger] out@[k]).0@ == expected[k].0 && out@[k].1@
                        == expected[k].1,
                expected.len() == n,
            decreases rev.len(),
        {
            let p = rev.pop().unwrap();
            out.push(p);
        }
        proof {
            lemma_object_view(out);
            assert(field_views(out@) =~= expected);
        }
        Value::Object(out)
    }

    /// A list holding the given items.
    pub fn list(items: Vec<Value>) -> (r: Value)
        ensures
            r@ == ValueView::List(views_of(items@)),
    {
        proof {
            lemma_list_view(items);
        }
        Value::List(items)
    }

    /// Is this the null value?
    pub fn is_null(&self) -> (r: bool)
        ensures
            r == (self@ == ValueView::Null),
    {
        match self {
            Value::Null => true,
            _ => false,
        }
    }

    /// A short structural signature used for boundary validation, e.g.
    /// `Object{count:Int,name:Str}`.
    pub fn shape(&self, depth: u8) -> (r: String)
        ensures
            r@ == shape_of(self@, depth),
        decreases self,
    {
        match self {
            Value::Null => String::from_str("Null"),
            Value::Bool(_) => String::from_str("Bool"),
            Value::Int(_) => String::from_str("Int"),
            Value::FloatI(_, _) => String::from_str("Float"),
            Value::Str(_) => String::from_str("Str"),
            Value::Blob(mime, _) => {
                let mut s = String::from_str("Blob(");
                s.append(mime.as_str());
                s.append(")");
                s
            },
            Value::List(items) => {
                if depth == 0 || items.len() == 0 {
                    String::from_str("List")
                } else {
                    proof {
                        assert(decreases_to!(*items => items[0]));
                        assert(decreases_to!(*self => (*self)->List_0));
                    }
                    proof {
                        lemma_list_view(*items);
                    }
                    let inner = items[0].shape(depth - 1);
                    let mut s = String::from_str("List[");
                    s.append(inner.as_str());
                    s.append("]");
                    s
                }
            },
            Value::Object(fields) => {
                if depth == 0 || fields.len() == 0 {
                    String::from_str("Object")
                } else {
                    let ghost fv = field_views(fields@);
                    proof {
                        lemma_object_view(*fields);
                    }
                    let mut inner = String::new();
                    let mut i: usize = 0;
                    while i < fields.len()
                        invariant
                            depth > 0,
                            i <= fields.len(),
                            fv == field_views(fields@),
                            *self == Value::Object(*fields),
                            inner@ == shape_fields(fv, (depth - 1) as u8, i as int),
                        decreases fields.len() - i,
                    {
                        proof {
                            assert(decreases_to!(*fields => fields[i as int]));
                            assert(decreases_to!(*self => (*self)->Object_0));
                        }
                        let ghost before = inner@;
                        if i > 0 {
                            inner.append(",");
                        }
                        inner.append(fields[i].0.as_str());
                        inner.append(":");
                        let sub = fields[i].1.shape(depth - 1);
                        inner.append(sub.as_str());
                        proof {
                            let entry = fv[i as int].0 + ":"@ + shape_of(
                                fv[i as int].1,
                                (depth - 1) as u8,
                            );
                            if i > 0 {
                                assert(inner@ =~= before + ","@ + entry);
                            } else {
                                assert(inner@ =~= entry);
                            }
                        }
                        i = i + 1;
                    }
                    let mut s = String::from_str("Object{");
                    s.append(inner.as_str());
                    s.append("}");
                    s
                }
            },
        }
    }
}

impl From<bool> for Value {
    fn from(b: bool) -> (r: Value) {
        Value::Bool(b)
    }
}

impl vstd::std_specs::convert::FromSpecImpl<bool> for Value {
    open spec fn obeys_from_spec() -> bool {
        true
    }

    open spec fn from_spec(b: bool) -> Value {
        Value::Bool(b)
    }
}

impl From<i64> for Value {
    fn from(i: i64) -> (r: Value) {
        Value::Int(i)
    }
}

impl vstd::std_specs::convert::FromSpecImpl<i64> for Value {
    open spec fn obeys_from_spec() -> bool {
        true
    }

    open spec fn from_spec(i: i64) -> Value {
        Value::Int(i)
    }
}

impl From<String> for Value {
    fn from(s: String) -> (r: Value) {
        Value::Str(s)
    }
}

impl vstd::std_specs::convert::FromSpecImpl<String> for Value {
    open spec fn obeys_from_spec() -> bool {
        true
    }

    open spec fn from_spec(s: String) -> Value {
        Value::Str(s)
    }
}


} // verus!

use vstd::prelude::*;
use vstd::string::StringExecFns;
use crate::float::{
    float_from_int, float_is_nan, float_order_key, ieee_from_int, is_nan,
    order_key,
};
use crate::decimal::{double_text, double_to_text};
use crate::text::{chars_of, int_text, int_to_text};

verus! {

broadcast use vstd::std_specs::vec::axiom_vec_decreases_to_view;

/// Mathematical model of a reference held by a field.
pub enum RefModel {
    Entity(Seq<char>),
    Field(Seq<char>, Seq<char>),
}

/// Mathematical model of a field value.
pub enum ValueModel {
    Str(Seq<char>),
    Int(i64),
    Float(u64),
    Bool(bool),
    Currency(Seq<char>, Seq<char>),
    Reference(RefModel),
    List(Seq<ValueModel>),
    DateTime(i64, u32, Seq<char>),
    Path(Seq<char>),
}

/// A reference from a field to another entity, or to a field of another entity.
#[derive(Debug, Clone, PartialEq)]
pub enum ReferenceValue {
    Entity(String),
    Field(String, String),
}

impl View for ReferenceValue {
    type V = RefModel;

    open spec fn view(&self) -> RefModel {
        match self {
            ReferenceValue::Entity(id) => RefModel::Entity(id@),
            ReferenceValue::Field(id, f) => RefModel::Field(id@, f@),
        }
    }
}

/// A point in time: seconds and nanoseconds since the Unix epoch, and its text.
#[derive(Debug, Clone, PartialEq)]
pub struct DateTimeValue {
    pub seconds: i64,
    pub nanos: u32,
    pub text: String,
}

/// The value of an entity's field.
#[derive(Debug, PartialEq)]
pub enum FieldValue {
    String(String),
    Integer(i64),
    /// An IEEE-754 double, held by its bit pattern.
    Float(u64),
    Boolean(bool),
    Currency { amount: String, currency: String },
    Reference(ReferenceValue),
    List(Vec<FieldValue>),
    DateTime(DateTimeValue),
    Path(String),
}

impl FieldValue {
    pub open spec fn model(&self) -> ValueModel
        decreases self,
    {

        match self {
            FieldValue::String(s) => ValueModel::Str(s@),
            FieldValue::Integer(i) => ValueModel::Int(*i),
            FieldValue::Float(b) => ValueModel::Float(*b),
            FieldValue::Boolean(b) => ValueModel::Bool(*b),
            FieldValue::Currency { amount, currency } => ValueModel::Currency(amount@, currency@),
            FieldValue::Reference(r) => ValueModel::Reference(r@),
            FieldValue::List(items) => ValueModel::List(list_model(items@)),
            FieldValue::DateTime(d) => ValueModel::DateTime(d.seconds, d.nanos, d.text@),
            FieldValue::Path(p) => ValueModel::Path(p@),
        }
    }
}

/// The models of a sequence of field values, in order.
pub open spec fn list_model(items: Seq<FieldValue>) -> Seq<ValueModel>
    decreases items,
{
    if items.len() == 0 {
        Seq::empty()
    } else {
        seq![items[0].model()] + list_model(items.subrange(1, items.len() as int))
    }
}

impl View for FieldValue {
    type V = ValueModel;

    open spec fn view(&self) -> ValueModel {
        self.model()
    }
}


/// The result of comparing two values.
#[derive(PartialEq, Eq, Debug, Clone, Copy)]
pub enum Order {
    Less,
    Equal,
    Greater,
}

impl Order {
    /// The opposite order.
    pub open spec fn flip(self) -> Order {
        match self {
            Order::Less => Order::Greater,
            Order::Equal => Order::Equal,
            Order::Greater => Order::Less,
        }
    }

    /// The opposite order.
    pub fn reverse(self) -> (r: Order)
        ensures
            r == self.flip(),
    {
        match self {
            Order::Less => Order::Greater,
            Order::Equal => Order::Equal,
            Order::Greater => Order::Less,
        }
    }

    /// Whether this is `Equal`.
    pub fn is_equal(self) -> (r: bool)
        ensures
            r == (self == Order::Equal),
    {
        match self {
            Order::Equal => true,
            _ => false,
        }
    }
}

/// The order of two integers.
pub open spec fn int_order(a: int, b: int) -> Order {
    if a < b {
        Order::Less
    } else if a == b {
        Order::Equal
    } else {
        Order::Greater
    }
}

/// The lexicographic order of two texts by code point, as `str` orders them.
pub open spec fn text_order(a: Seq<char>, b: Seq<char>) -> Order
    decreases a.len(),
{
    if a.len() == 0 {
        if b.len() == 0 {
            Order::Equal
        } else {
            Order::Less
        }
    } else if b.len() == 0 {
        Order::Greater
    } else if (a[0] as u32) < (b[0] as u32) {
        Order::Less
    } else if (a[0] as u32) > (b[0] as u32) {
        Order::Greater
    } else {
        text_order(a.drop_first(), b.drop_first())
    }
}

/// The IEEE partial order of two doubles: none when either is NaN.
pub open spec fn float_order(a: u64, b: u64) -> Option<Order> {
    if is_nan(a) || is_nan(b) {
        None
    } else {
        Some(int_order(order_key(a), order_key(b)))
    }
}

/// The order of two booleans (`false` before `true`).
pub open spec fn bool_order(a: bool, b: bool) -> Order {
    if a == b {
        Order::Equal
    } else if !a {
        Order::Less
    } else {
        Order::Greater
    }
}

/// The text of a reference: the entity id, or the entity id and field joined by a dot.
pub open spec fn ref_text(r: RefModel) -> Seq<char> {
    match r {
        RefModel::Entity(id) => id,
        RefModel::Field(id, f) => id + "."@ + f,
    }
}

/// The text of a boolean.
pub open spec fn bool_text(b: bool) -> Seq<char> {
    if b {
        "true"@
    } else {
        "false"@
    }
}

/// The text of a value other than a list, as its `Display` writes it.
pub open spec fn scalar_text(v: ValueModel) -> Seq<char> {
    match v {
        ValueModel::Str(s) => s,
        ValueModel::Int(i) => int_text(i as int),
        ValueModel::Float(b) => double_text(b),
        ValueModel::Bool(b) => bool_text(b),
        ValueModel::Currency(a, c) => a + " "@ + c,
        ValueModel::Reference(r) => ref_text(r),
        ValueModel::List(_) => Seq::empty(),
        ValueModel::DateTime(_, _, t) => t,
        ValueModel::Path(p) => p,
    }
}

/// The order that a comparison in a query gives two values: numbers by value (an integer
/// against a double as the double nearest to it), texts, booleans and references by their
/// text, nothing for a list or a NaN, and other pairs by their texts.
pub open spec fn compare_values(l: ValueModel, r: ValueModel) -> Option<Order> {
    match (l, r) {
        (ValueModel::Int(a), ValueModel::Int(b)) => Some(int_order(a as int, b as int)),
        (ValueModel::Float(a), ValueModel::Float(b)) => float_order(a, b),
        (ValueModel::Str(a), ValueModel::Str(b)) => Some(text_order(a, b)),
        (ValueModel::Bool(a), ValueModel::Bool(b)) => Some(bool_order(a, b)),
        (ValueModel::Int(a), ValueModel::Float(b)) => float_order(ieee_from_int(a), b),
        (ValueModel::Float(a), ValueModel::Int(b)) => float_order(a, ieee_from_int(b)),
        (ValueModel::Reference(a), ValueModel::Str(b)) => Some(text_order(ref_text(a), b)),
        (ValueModel::Str(a), ValueModel::Reference(b)) => Some(text_order(a, ref_text(b))),
        (ValueModel::Reference(a), ValueModel::Reference(b)) => Some(
            text_order(ref_text(a), ref_text(b)),
        ),
        (ValueModel::List(_), _) => None,
        (_, ValueModel::List(_)) => None,
        _ => Some(text_order(scalar_text(l), scalar_text(r))),
    }
}

/// The lexicographic order of two character vectors.
pub fn chars_order(a: &Vec<char>, b: &Vec<char>) -> (r: Order)
    ensures
        r == text_order(a@, b@),
{
    let mut i: usize = 0;
    assert(a@.skip(0) == a@);
    assert(b@.skip(0) == b@);
    while i < a.len() && i < b.len() && (a[i] as u32) == (b[i] as u32)
        invariant
            i <= a.len(),
            i <= b.len(),
            text_order(a@.skip(i as int), b@.skip(i as int)) == text_order(a@, b@),
        decreases a.len() - i,
    {
        assert(a@.skip(i as int).drop_first() == a@.skip(i + 1));
        assert(b@.skip(i as int).drop_first() == b@.skip(i + 1));
        i = i + 1;
    }
    let r = if i == a.len() {
        if i == b.len() {
            Order::Equal
        } else {
            Order::Less
        }
    } else if i == b.len() {
        Order::Greater
    } else if (a[i] as u32) < (b[i] as u32) {
        Order::Less
    } else {
        Order::Greater
    };
    r
}

/// The lexicographic order of two texts.
pub fn str_order(a: &str, b: &str) -> (r: Order)
    ensures
        r == text_order(a@, b@),
{
    chars_order(&chars_of(a), &chars_of(b))
}

/// The order of two integers.
pub fn i64_order(a: i64, b: i64) -> (r: Order)
    ensures
        r == int_order(a as int, b as int),
{
    if a < b {
        Order::Less
    } else if a == b {
        Order::Equal
    } else {
        Order::Greater
    }
}

/// The IEEE partial order of two doubles.
pub fn f_order(a: u64, b: u64) -> (r: Option<Order>)
    ensures
        r == float_order(a, b),
{
    if float_is_nan(a) || float_is_nan(b) {
        None
    } else {
        Some(i64_order(float_order_key(a), float_order_key(b)))
    }
}

/// The order of two booleans.
pub fn b_order(a: bool, b: bool) -> (r: Order)
    ensures
        r == bool_order(a, b),
{
    if a == b {
        Order::Equal
    } else if !a {
        Order::Less
    } else {
        Order::Greater
    }
}

impl ReferenceValue {
    /// The text of the reference.
    pub fn to_text(&self) -> (r: String)
        ensures
            r@ == ref_text(self@),
    {
        match self {
            ReferenceValue::Entity(id) => id.clone(),
            ReferenceValue::Field(id, f) => {
                let mut s = id.clone();
                s.append(".");
                s.append(f.as_str());
                s
            },
        }
    }
}

impl FieldValue {
    /// The text of a value other than a list.
    pub fn scalar_to_text(&self) -> (r: String)
        requires
            !(self@ is List),
        ensures
            r@ == scalar_text(self@),
    {
        match self {
            FieldValue::String(s) => s.clone(),
            FieldValue::Integer(i) => int_to_text(*i),
            FieldValue::Float(b) => double_to_text(*b),
            FieldValue::Boolean(b) => {
                if *b {
                    String::from_str("true")
                } else {
                    String::from_str("false")
                }
            },
            FieldValue::Currency { amount, currency } => {
                let mut s = amount.clone();
                s.append(" ");
                s.append(currency.as_str());
                s
            },
            FieldValue::Reference(r) => r.to_text(),
            FieldValue::List(_) => String::new(),
            FieldValue::DateTime(d) => d.text.clone(),
            FieldValue::Path(p) => p.clone(),
        }
    }

    /// Whether the value is a list.
    pub fn is_list(&self) -> (r: bool)
        ensures
            r == (self@ is List),
    {
        match self {
            FieldValue::List(_) => true,
            _ => false,
        }
    }

    /// Compares two values as a query's comparison operators do.
    pub fn compare(&self, other: &FieldValue) -> (r: Option<Order>)
        ensures
            r == compare_values(self@, other@),
    {
        match (self, other) {
            (FieldValue::Integer(a), FieldValue::Integer(b)) => Some(i64_order(*a, *b)),
            (FieldValue::Float(a), FieldValue::Float(b)) => f_order(*a, *b),
            (FieldValue::String(a), FieldValue::String(b)) => Some(str_order(a.as_str(), b.as_str())),
            (FieldValue::Boolean(a), FieldValue::Boolean(b)) => Some(b_order(*a, *b)),
            (FieldValue::Integer(a), FieldValue::Float(b)) => f_order(float_from_int(*a), *b),
            (FieldValue::Float(a), FieldValue::Integer(b)) => f_order(*a, float_from_int(*b)),
            (FieldValue::Reference(a), FieldValue::String(b)) => Some(
                str_order(a.to_text().as_str(), b.as_str()),
            ),
            (FieldValue::String(a), FieldValue::Reference(b)) => Some(
                str_order(a.as_str(), b.to_text().as_str()),
            ),
            (FieldValue::Reference(a), FieldValue::Reference(b)) => Some(
                str_order(a.to_text().as_str(), b.to_text().as_str()),
            ),
            _ => {
                if self.is_list() || other.is_list() {
                    None
                } else {
                    Some(str_order(self.scalar_to_text().as_str(), other.scalar_to_text().as_str()))
                }
            },
        }
    }
}

/// An optional order, the other way round.
pub open spec fn flip_option(o: Option<Order>) -> Option<Order> {
    match o {
        Some(x) => Some(x.flip()),
        None => None,
    }
}

/// Texts compare the other way round in the opposite order.
pub proof fn lemma_text_order_flip(a: Seq<char>, b: Seq<char>)
    ensures
        text_order(b, a) == text_order(a, b).flip(),
    decreases a.len(),
{
    if a.len() > 0 && b.len() > 0 && (a[0] as u32) == (b[0] as u32) {
        lemma_text_order_flip(a.drop_first(), b.drop_first());
    }
}

/// Comparison in a query is antisymmetric: comparing the other way round gives the
/// opposite order, and no order where there was none.
pub proof fn lemma_compare_values_flip(a: ValueModel, b: ValueModel)
    ensures
        compare_values(b, a) == flip_option(compare_values(a, b)),
{
    lemma_text_order_flip(scalar_text(a), scalar_text(b));
    match (a, b) {
        (ValueModel::Str(x), ValueModel::Str(y)) => lemma_text_order_flip(x, y),
        (ValueModel::Reference(x), ValueModel::Str(y)) => lemma_text_order_flip(ref_text(x), y),
        (ValueModel::Str(x), ValueModel::Reference(y)) => lemma_text_order_flip(x, ref_text(y)),
        (ValueModel::Reference(x), ValueModel::Reference(y)) => lemma_text_order_flip(
            ref_text(x),
            ref_text(y),
        ),
        _ => {},
    }
}

} // verus!

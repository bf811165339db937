//! The values carried by streams, and the types of streams.
use vstd::prelude::*;

verus! {

/// A decimal number written as `digits.digits`, kept exactly as written.
///
/// Streams may carry non-integral numbers; the library keeps such a number
/// as its decimal text and leaves its binary approximation to the caller.
#[derive(Debug)]
pub struct Decimal {
    text: String,
}

impl View for Decimal {
    type V = Seq<char>;

    closed spec fn view(&self) -> Seq<char> {
        self.text@
    }
}

impl Decimal {
    /// The number whose decimal text is `text`.
    pub fn from_text(text: String) -> (r: Decimal)
        ensures
            r@ == text@,
    {
        Decimal { text }
    }

    /// The decimal text of the number.
    pub fn text(&self) -> (r: String)
        ensures
            r@ == self@,
    {
        self.text.clone()
    }

    /// The same number.
    pub fn duplicate(&self) -> (r: Decimal)
        ensures
            r@ == self@,
    {
        Decimal { text: self.text.clone() }
    }
}

impl PartialEq for Decimal {
    fn eq(&self, other: &Self) -> (r: bool) {
        crate::text::string_eq(&self.text, &other.text)
    }
}

impl vstd::std_specs::cmp::PartialEqSpecImpl for Decimal {
    open spec fn obeys_eq_spec() -> bool {
        true
    }

    open spec fn eq_spec(&self, other: &Self) -> bool {
        self@ == other@
    }
}

/// A value of a stream.
#[derive(Debug, PartialEq)]
pub enum Value {
    Int(i64),
    Float(Decimal),
    Str(String),
    Bool(bool),
    List(Vec<Value>),
    Unknown,
    Unit,
}

/// The mathematical content of a [`Value`].
pub ghost enum ValueV {
    Int(int),
    Float(Seq<char>),
    Str(Seq<char>),
    Bool(bool),
    List(Seq<ValueV>),
    Unknown,
    Unit,
}

/// The content of a value.
pub open spec fn value_view(v: &Value) -> ValueV
    decreases v,
{
    match v {
        Value::Int(i) => ValueV::Int(*i as int),
        Value::Float(d) => ValueV::Float(d@),
        Value::Str(s) => ValueV::Str(s@),
        Value::Bool(b) => ValueV::Bool(*b),
        Value::List(items) => ValueV::List(values_view(items@)),
        Value::Unknown => ValueV::Unknown,
        Value::Unit => ValueV::Unit,
    }
}

/// The contents of a sequence of values.
pub open spec fn values_view(s: Seq<Value>) -> Seq<ValueV>
    decreases s,
{
    if s.len() == 0 {
        Seq::empty()
    } else {
        seq![value_view(&s[0])] + values_view(s.subrange(1, s.len() as int))
    }
}

impl View for Value {
    type V = ValueV;

    open spec fn view(&self) -> ValueV {
        value_view(self)
    }
}

impl Value {
    /// The integer this value holds, if it is one.
    pub fn as_int(&self) -> (r: Option<i64>)
        ensures
            r == (match self@ {
                ValueV::Int(i) => Some(i as i64),
                _ => None::<i64>,
            }),
    {
        match self {
            Value::Int(i) => Some(*i),
            _ => None,
        }
    }

    /// The boolean this value holds, if it is one.
    pub fn as_bool(&self) -> (r: Option<bool>)
        ensures
            r == (match self@ {
                ValueV::Bool(b) => Some(b),
                _ => None::<bool>,
            }),
    {
        match self {
            Value::Bool(b) => Some(*b),
            _ => None,
        }
    }

    /// The string this value holds, if it is one.
    pub fn as_str(&self) -> (r: Option<String>)
        ensures
            r matches Some(s) ==> self@ == ValueV::Str(s@),
            r is None <==> !(self@ is Str),
    {
        match self {
            Value::Str(s) => Some(s.clone()),
            _ => None,
        }
    }

    /// Whether this value is the unit value.
    pub fn is_unit(&self) -> (r: bool)
        ensures
            r == (self@ is Unit),
    {
        match self {
            Value::Unit => true,
            _ => false,
        }
    }

    /// The same value.
    #[verifier::loop_isolation(false)]
    pub fn duplicate(&self) -> (r: Value)
        ensures
            r@ == self@,
        decreases self,
    {
        match self {
            Value::Int(i) => Value::Int(*i),
            Value::Float(d) => Value::Float(d.duplicate()),
            Value::Str(s) => Value::Str(s.clone()),
            Value::Bool(b) => Value::Bool(*b),
            Value::List(items) => {
                let mut out: Vec<Value> = Vec::new();
                let mut i: usize = 0;
                while i < items.len()
                    invariant
                        i <= items.len(),
                        values_view(out@) == values_view(items@.subrange(0, i as int)),
                    decreases items.len() - i,
                {
                    proof {
                        assert(decreases_to!(*self => *items));
                        assert(decreases_to!(*items => items@));
                        assert(decreases_to!(items@ => items@[i as int]));
                    }
                    let d = items[i].duplicate();
                    proof {
                        lemma_values_view_push(out@, d);
                        lemma_values_view_push(items@.subrange(0, i as int), items@[i as int]);
                        assert(items@.subrange(0, i as int).push(items@[i as int])
                            =~= items@.subrange(0, i + 1));
                    }
                    out.push(d);
                    i = i + 1;
                }
                assert(items@.subrange(0, items.len() as int) =~= items@);
                Value::List(out)
            },
            Value::Unknown => Value::Unknown,
            Value::Unit => Value::Unit,
        }
    }
}

/// Appending a value appends its content.
pub proof fn lemma_values_view_push(s: Seq<Value>, v: Value)
    ensures
        values_view(s.push(v)) == values_view(s).push(value_view(&v)),
    decreases s.len(),
{
    if s.len() == 0 {
        assert(s.push(v).subrange(1, 1) =~= Seq::<Value>::empty());
        assert(values_view(Seq::<Value>::empty()) == Seq::<ValueV>::empty());
        assert(s.push(v)[0] == v);
        assert(values_view(s.push(v)) == seq![value_view(&v)] + values_view(
            s.push(v).subrange(1, 1),
        ));
        assert(values_view(s.push(v)) =~= values_view(s).push(value_view(&v)));
    } else {
        lemma_values_view_push(s.subrange(1, s.len() as int), v);
        assert(s.push(v).subrange(1, s.len() as int + 1) =~= s.subrange(1, s.len() as int).push(v));
        assert(values_view(s.push(v)) =~= values_view(s).push(value_view(&v)));
    }
}

/// The type of a stream.
#[derive(Debug, Clone, Copy, PartialEq, Eq, Structural, PartialOrd, Ord)]
pub enum StreamType {
    Int,
    Float,
    Str,
    Bool,
    Unit,
}

impl View for StreamType {
    type V = StreamType;

    open spec fn view(&self) -> StreamType {
        *self
    }
}

} // verus!

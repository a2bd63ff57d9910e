use vstd::prelude::*;

use vstd::string::*;

use crate::text::append_bytes;

use super::object::{
    function_view, interned, lossy_text, FunctionObject, FunctionView, NativeObject, Obj,
    StringObject, StringView,
};

verus! {

/// What an object stands for.
pub enum ObjView {
    String(StringView),
    Function(FunctionView),
    Native(StringView),
}

/// What a runtime value stands for. A number is the bit pattern of an IEEE-754 double.
pub enum ValView {
    Boolean(bool),
    Nil,
    Number(u64),
    Object(ObjView),
}

/// The tag and payload of a runtime value. `Number` holds the bits of an IEEE-754 double.
#[derive(Debug, PartialEq)]
pub enum ValueType {
    Boolean(bool),
    Nil,
    Number(u64),
    Object(Obj),
}

/// A runtime value.
#[derive(Debug, PartialEq)]
pub struct Val {
    pub value_type: ValueType,
}

/// An ordered pool of values.
#[derive(Debug, PartialEq)]
pub struct Value {
    pub values: Vec<Val>,
}

/// The bits of the double 1.0.
pub const NUMBER_ONE: u64 = 0x3ff0_0000_0000_0000;

/// The bits of positive infinity: the largest magnitude that is not a NaN.
pub const NUMBER_INFINITY: u64 = 0x7ff0_0000_0000_0000;

/// The weight of the sign bit.
pub const NUMBER_SIGN: u64 = 0x8000_0000_0000_0000;

/// The bits of a double without its sign.
pub open spec fn number_magnitude(bits: u64) -> u64 {
    bits % 0x8000_0000_0000_0000
}

/// Whether the sign bit of a double is set.
pub open spec fn number_negative(bits: u64) -> bool {
    bits >= 0x8000_0000_0000_0000
}

/// Whether the bits are those of a NaN: all exponent bits set and a fraction that is not zero.
pub open spec fn number_is_nan(bits: u64) -> bool {
    number_magnitude(bits) > 0x7ff0_0000_0000_0000
}

/// Whether the bits are those of positive or negative zero.
pub open spec fn number_is_zero(bits: u64) -> bool {
    number_magnitude(bits) == 0
}

/// An integer that orders the doubles that are not NaN as IEEE-754 does: the magnitude,
/// negated under a set sign bit, so that the two zeros coincide.
pub open spec fn number_key(bits: u64) -> int {
    if number_negative(bits) {
        -(number_magnitude(bits) as int)
    } else {
        number_magnitude(bits) as int
    }
}

/// IEEE-754 `==` on the bits of two doubles.
pub open spec fn number_eq(a: u64, b: u64) -> bool {
    !number_is_nan(a) && !number_is_nan(b) && number_key(a) == number_key(b)
}

/// IEEE-754 `<` on the bits of two doubles.
pub open spec fn number_lt(a: u64, b: u64) -> bool {
    !number_is_nan(a) && !number_is_nan(b) && number_key(a) < number_key(b)
}

/// IEEE-754 `<=` on the bits of two doubles.
pub open spec fn number_le(a: u64, b: u64) -> bool {
    !number_is_nan(a) && !number_is_nan(b) && number_key(a) <= number_key(b)
}

/// The bits of the negated double: the sign bit flipped.
pub open spec fn number_neg(bits: u64) -> u64 {
    if bits >= 0x8000_0000_0000_0000 {
        (bits - 0x8000_0000_0000_0000) as u64
    } else {
        (bits + 0x8000_0000_0000_0000) as u64
    }
}

/// Whether the bits are those of a NaN.
pub fn is_nan(bits: u64) -> (r: bool)
    ensures
        r == number_is_nan(bits),
{
    bits % NUMBER_SIGN > NUMBER_INFINITY
}

/// Whether the bits are those of a zero.
pub fn is_zero(bits: u64) -> (r: bool)
    ensures
        r == number_is_zero(bits),
{
    bits % NUMBER_SIGN == 0
}

/// IEEE-754 `==` on bits.
pub fn numbers_equal(a: u64, b: u64) -> (r: bool)
    ensures
        r == number_eq(a, b),
{
    if is_nan(a) || is_nan(b) {
        return false;
    }
    if is_zero(a) && is_zero(b) {
        return true;
    }
    a == b
}

/// IEEE-754 `<` on bits.
pub fn number_less(a: u64, b: u64) -> (r: bool)
    ensures
        r == number_lt(a, b),
{
    if is_nan(a) || is_nan(b) {
        return false;
    }
    let ma: u64 = a % NUMBER_SIGN;
    let mb: u64 = b % NUMBER_SIGN;
    if a >= NUMBER_SIGN {
        if b >= NUMBER_SIGN {
            ma > mb
        } else {
            ma != 0 || mb != 0
        }
    } else {
        if b >= NUMBER_SIGN {
            false
        } else {
            ma < mb
        }
    }
}

/// IEEE-754 `<=` on bits.
pub fn number_less_equal(a: u64, b: u64) -> (r: bool)
    ensures
        r == number_le(a, b),
{
    if is_nan(a) || is_nan(b) {
        return false;
    }
    !number_less(b, a)
}

/// The bits of the negated double.
pub fn negate_number(bits: u64) -> (r: u64)
    ensures
        r == number_neg(bits),
{
    if bits >= NUMBER_SIGN {
        bits - NUMBER_SIGN
    } else {
        bits + NUMBER_SIGN
    }
}

impl Val {
    /// A boolean value.
    pub fn boolean(value: bool) -> (r: Self)
        ensures
            r@ == ValView::Boolean(value),
    {
        Val { value_type: ValueType::Boolean(value) }
    }

    /// An object value.
    pub fn object(value: Obj) -> (r: Self)
        ensures
            r@ == ValView::Object(value@),
    {
        Val { value_type: ValueType::Object(value) }
    }

    /// The nil value.
    pub fn nil() -> (r: Self)
        ensures
            r@ == ValView::Nil,
    {
        Val { value_type: ValueType::Nil }
    }

    /// A number, given as the bits of a double.
    pub fn number(value: u64) -> (r: Self)
        ensures
            r@ == ValView::Number(value),
    {
        Val { value_type: ValueType::Number(value) }
    }

    /// What `is_falsey` computes: false, nil, a zero, an empty string and a function
    /// without constants.
    pub open spec fn spec_is_falsey(v: ValView) -> bool {
        match v {
            ValView::Boolean(b) => !b,
            ValView::Nil => true,
            ValView::Number(n) => number_is_zero(n),
            ValView::Object(ObjView::String(s)) => s.length == 0,
            ValView::Object(ObjView::Function(f)) => f.chunk.constants.len() == 0,
            ValView::Object(ObjView::Native(_)) => false,
        }
    }

    /// The arithmetic notion of falsehood, which also counts zero and empty objects.
    /// Branches do not use it: they go by `is_truthy`.
    pub fn is_falsey(&self) -> (r: bool)
        ensures
            r == Self::spec_is_falsey(self@),
    {
        match &self.value_type {
            ValueType::Boolean(value) => !*value,
            ValueType::Nil => true,
            ValueType::Number(value) => is_zero(*value),
            ValueType::Object(value) => match value {
                Obj::String(value) => value.is_empty(),
                Obj::Function(function) => {
                    assert(function@.chunk.constants.len() == function.chunk.constants.values@.len());
                    function.chunk.constants.values.len() == 0
                },
                Obj::Native(_) => false,
            },
        }
    }

    /// What branches take for true: everything but `false` and nil.
    pub open spec fn spec_is_truthy(v: ValView) -> bool {
        match v {
            ValView::Boolean(b) => b,
            ValView::Nil => false,
            _ => true,
        }
    }

    /// Whether a branch takes the value for true.
    pub fn is_truthy(&self) -> (r: bool)
        ensures
            r == Self::spec_is_truthy(self@),
    {
        match &self.value_type {
            ValueType::Boolean(value) => *value,
            ValueType::Nil => false,
            _ => true,
        }
    }

    /// The boolean in a boolean; for a number, whether it differs from zero.
    pub fn as_bool(&self) -> (r: bool)
        requires
            self@ is Boolean || self@ is Number,
        ensures
            self@ matches ValView::Boolean(b) ==> r == b,
            self@ matches ValView::Number(n) ==> r == !number_is_zero(n),
    {
        match &self.value_type {
            ValueType::Boolean(value) => *value,
            ValueType::Number(value) => !is_zero(*value),
            _ => false,
        }
    }

    /// The bits in a number; for a boolean, the bits of 1.0 or of 0.0.
    pub fn as_number(&self) -> (r: u64)
        requires
            self@ is Boolean || self@ is Number,
        ensures
            self@ matches ValView::Boolean(b) ==> r == (if b { 0x3ff0_0000_0000_0000u64 } else { 0u64 }),
            self@ matches ValView::Number(n) ==> r == n,
    {
        match &self.value_type {
            ValueType::Boolean(value) => if *value { NUMBER_ONE } else { 0 },
            ValueType::Number(value) => *value,
            _ => 0,
        }
    }

    /// The object in an object value. Any other value gives a string that stands in for
    /// it: `false` for a boolean, `nil` for nil, `0.0` for a number.
    pub fn as_object(&self) -> (r: Obj)
        ensures
            self@ matches ValView::Object(o) ==> r@ == o,
            self@ is Boolean ==> r@ == ObjView::String(interned("false".spec_bytes())),
            self@ is Nil ==> r@ == ObjView::String(interned("nil".spec_bytes())),
            self@ is Number ==> r@ == ObjView::String(interned("0.0".spec_bytes())),
    {
        match &self.value_type {
            ValueType::Boolean(_) => Obj::String(StringObject::new("false")),
            ValueType::Nil => Obj::String(StringObject::new("nil")),
            ValueType::Number(_) => Obj::String(StringObject::new("0.0")),
            ValueType::Object(value) => value.clone(),
        }
    }

    /// Whether the value is a boolean.
    pub fn is_boolean(&self) -> (r: bool)
        ensures
            r == (self@ is Boolean),
    {
        matches!(self.value_type, ValueType::Boolean(_))
    }

    /// Whether the value is an object.
    pub fn is_object(&self) -> (r: bool)
        ensures
            r == (self@ is Object),
    {
        matches!(self.value_type, ValueType::Object(_))
    }

    /// Whether the value is a number.
    pub fn is_number(&self) -> (r: bool)
        ensures
            r == (self@ is Number),
    {
        matches!(self.value_type, ValueType::Number(_))
    }

    /// Whether the value is nil.
    pub fn is_nil(&self) -> (r: bool)
        ensures
            r == (self@ is Nil),
    {
        matches!(self.value_type, ValueType::Nil)
    }

    /// Whether the value is a string.
    pub fn is_string(&self) -> (r: bool)
        ensures
            r == (self@ matches ValView::Object(ObjView::String(_))),
    {
        matches!(self.value_type, ValueType::Object(Obj::String(_)))
    }

    /// The string in a string value, or the name of a function.
    pub fn as_object_string(&self) -> (r: StringObject)
        requires
            self@ matches ValView::Object(o) && !(o is Native),
        ensures
            self@ matches ValView::Object(ObjView::String(s)) ==> r@ == s,
            self@ matches ValView::Object(ObjView::Function(f)) ==> r@ == f.name,
    {
        match &self.value_type {
            ValueType::Object(value) => match value {
                Obj::String(value) => value.clone(),
                Obj::Function(function) => function.name.clone(),
                Obj::Native(native) => native.name.clone(),
            },
            _ => StringObject::new(""),
        }
    }

    /// The text of a string value, or of the name of a function.
    pub fn as_string(&self) -> (r: String)
        requires
            self@ matches ValView::Object(o) && !(o is Native),
        ensures
            r@ == Self::spec_as_string(self@),
    {
        let s = self.as_object_string();
        s.as_str()
    }

    /// What `as_string` returns: the text of the string or of the function's name, where
    /// an empty one reads `<main>`.
    pub open spec fn spec_as_string(v: ValView) -> Seq<char> {
        let s = match v {
            ValView::Object(ObjView::String(s)) => s,
            ValView::Object(ObjView::Function(f)) => f.name,
            _ => interned(Seq::empty()),
        };
        if s.length == 0 {
            "<main>"@
        } else {
            lossy_text(s.chars)
        }
    }
}

/// The name that a function is shown by: its name, or `main` for the script.
pub open spec fn shown_name(name: StringView) -> Seq<u8> {
    if name.length == 0 {
        "main".spec_bytes()
    } else {
        name.chars
    }
}

/// The text of a value, where `number` is the text of its double if it is a number:
/// `true`, `false` or `nil`, the number, the bytes of a string, `<name>` for a function
/// (`<main>` for the script) and `<native name>` for a native.
pub open spec fn rendered(v: ValView, number: Seq<u8>) -> Seq<u8> {
    match v {
        ValView::Boolean(b) => if b {
            "true".spec_bytes()
        } else {
            "false".spec_bytes()
        },
        ValView::Nil => "nil".spec_bytes(),
        ValView::Number(_) => number,
        ValView::Object(ObjView::String(s)) => s.chars,
        ValView::Object(ObjView::Function(f)) => "<".spec_bytes() + shown_name(f.name)
            + ">".spec_bytes(),
        ValView::Object(ObjView::Native(name)) => "<native ".spec_bytes() + name.chars
            + ">".spec_bytes(),
    }
}

impl Val {
    /// The text of the value. The text of a number is `number`, which the caller makes
    /// of its double.
    pub fn to_text(&self, number: &[u8]) -> (r: Vec<u8>)
        ensures
            r@ == rendered(self@, number@),
    {
        let mut r: Vec<u8> = Vec::new();
        match &self.value_type {
            ValueType::Boolean(b) => {
                if *b {
                    append_bytes(&mut r, "true".as_bytes());
                } else {
                    append_bytes(&mut r, "false".as_bytes());
                }
            },
            ValueType::Nil => append_bytes(&mut r, "nil".as_bytes()),
            ValueType::Number(_) => append_bytes(&mut r, number),
            ValueType::Object(Obj::String(s)) => append_bytes(&mut r, s.chars.as_slice()),
            ValueType::Object(Obj::Function(f)) => {
                append_bytes(&mut r, "<".as_bytes());
                if f.name.length == 0 {
                    append_bytes(&mut r, "main".as_bytes());
                } else {
                    append_bytes(&mut r, f.name.chars.as_slice());
                }
                append_bytes(&mut r, ">".as_bytes());
            },
            ValueType::Object(Obj::Native(n)) => {
                append_bytes(&mut r, "<native ".as_bytes());
                append_bytes(&mut r, n.name.chars.as_slice());
                append_bytes(&mut r, ">".as_bytes());
            },
        }
        r
    }
}

/// The view of an object.
pub open spec fn obj_view(o: Obj) -> ObjView
    decreases o,
{
    match o {
        Obj::String(s) => ObjView::String(s@),
        Obj::Function(f) => ObjView::Function(function_view(f)),
        Obj::Native(n) => ObjView::Native(n.name@),
    }
}

/// The view of a value.
pub open spec fn val_view(v: Val) -> ValView
    decreases v,
{
    match v.value_type {
        ValueType::Boolean(b) => ValView::Boolean(b),
        ValueType::Nil => ValView::Nil,
        ValueType::Number(n) => ValView::Number(n),
        ValueType::Object(o) => ValView::Object(obj_view(o)),
    }
}

/// The views of a vector of values, in order.
pub open spec fn vals_view(vs: Vec<Val>) -> Seq<ValView>
    decreases vs,
{
    Seq::new(
        vs@.len(),
        |i: int|
            if 0 <= i < vs@.len() {
                val_view(vs@[i])
            } else {
                ValView::Nil
            },
    )
}

impl View for Val {
    type V = ValView;

    open spec fn view(&self) -> ValView {
        val_view(*self)
    }
}

impl View for Obj {
    type V = ObjView;

    open spec fn view(&self) -> ObjView {
        obj_view(*self)
    }
}

impl Clone for Val {
    fn clone(&self) -> (r: Self)
        ensures
            r@ == self@,
        decreases *self,
    {
        match &self.value_type {
            ValueType::Boolean(b) => Val { value_type: ValueType::Boolean(*b) },
            ValueType::Nil => Val { value_type: ValueType::Nil },
            ValueType::Number(n) => Val { value_type: ValueType::Number(*n) },
            ValueType::Object(o) => Val { value_type: ValueType::Object(o.clone()) },
        }
    }
}

impl Clone for Value {
    fn clone(&self) -> (r: Self)
        ensures
            r@ == self@,
        decreases *self,
    {
        let mut values: Vec<Val> = Vec::new();
        let mut i: usize = 0;
        while i < self.values.len()
            invariant
                i <= self.values.len(),
                values.len() == i,
                forall|j: int| 0 <= j < i ==> (#[trigger] values@[j])@ == self.values@[j]@,
            decreases self.values.len() - i,
        {
            values.push(self.values[i].clone());
            i += 1;
        }
        let r = Value { values };
        proof {
            assert(r@ =~= self@);
        }
        r
    }
}

impl Value {
    /// An empty pool.
    pub fn new() -> (r: Self)
        ensures
            r@ == Seq::<ValView>::empty(),
    {
        let r = Value { values: Vec::new() };
        proof {
            assert(r@ =~= Seq::empty());
        }
        r
    }

    /// Appends a value.
    pub fn write(&mut self, value: Val)
        ensures
            final(self)@ == old(self)@.push(value@),
    {
        self.values.push(value);
        proof {
            assert(self@ =~= old(self)@.push(value@));
        }
    }

    /// Empties the pool.
    pub fn free_value(&mut self)
        ensures
            final(self)@ == Seq::<ValView>::empty(),
    {
        self.values.clear();
        proof {
            assert(self@ =~= Seq::empty());
        }
    }
}

impl Default for Value {
    fn default() -> (r: Self)
        ensures
            r@ == Seq::<ValView>::empty(),
    {
        Self::new()
    }
}

impl View for Value {
    type V = Seq<ValView>;

    open spec fn view(&self) -> Seq<ValView> {
        vals_view(self.values)
    }
}

} // verus!

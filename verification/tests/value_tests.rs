use linen::error::LinenError;
use linen::vm::chunk::object::{FunctionObject, NativeObject, Obj, StringObject};
use linen::vm::chunk::value::{
    is_nan, negate_number, number_less, number_less_equal, numbers_equal, Val, Value, ValueType,
};
use linen::vm::{same_value, values_equal, VM};

fn num(value: f64) -> Val {
    Val::number(value.to_bits())
}

fn string(text: &str) -> Val {
    Val::object(Obj::String(StringObject::new(text)))
}

fn function(name: &str) -> Val {
    let mut f = FunctionObject::new();
    f.name = StringObject::new(name);
    Val::object(Obj::Function(f))
}

fn native(name: &str) -> Val {
    Val::object(Obj::Native(NativeObject { name: StringObject::new(name) }))
}

const SAMPLES: [f64; 13] = [
    0.0,
    -0.0,
    1.0,
    -1.0,
    1.5,
    -2.25,
    1e300,
    -1e300,
    5e-324,
    -5e-324,
    f64::INFINITY,
    f64::NEG_INFINITY,
    f64::NAN,
];

#[test]
fn numbers_compare_as_doubles_do() {
    for a in SAMPLES {
        for b in SAMPLES {
            let (x, y) = (a.to_bits(), b.to_bits());
            assert_eq!(numbers_equal(x, y), a == b, "{} == {}", a, b);
            assert_eq!(number_less(x, y), a < b, "{} < {}", a, b);
            assert_eq!(number_less_equal(x, y), a <= b, "{} <= {}", a, b);
        }
    }
}

#[test]
fn negation_flips_the_sign() {
    for a in SAMPLES {
        assert_eq!(negate_number(a.to_bits()), (-a).to_bits());
        assert_eq!(is_nan(a.to_bits()), a.is_nan());
    }
}

#[test]
fn only_false_and_nil_are_not_truthy() {
    assert!(!Val::boolean(false).is_truthy());
    assert!(!Val::nil().is_truthy());
    assert!(Val::boolean(true).is_truthy());
    assert!(num(0.0).is_truthy());
    assert!(num(1.0).is_truthy());
    assert!(string("").is_truthy());
    assert!(string("x").is_truthy());
    assert!(function("f").is_truthy());
    assert!(native("clock").is_truthy());
}

#[test]
fn falsey_also_counts_zero_and_empty_objects() {
    assert!(Val::boolean(false).is_falsey());
    assert!(Val::nil().is_falsey());
    assert!(num(0.0).is_falsey());
    assert!(num(-0.0).is_falsey());
    assert!(string("").is_falsey());
    assert!(function("f").is_falsey());
    assert!(!Val::boolean(true).is_falsey());
    assert!(!num(2.0).is_falsey());
    assert!(!num(f64::NAN).is_falsey());
    assert!(!string("x").is_falsey());
    assert!(!native("clock").is_falsey());
    let mut with_constant = FunctionObject::new();
    with_constant.chunk.add_constant(Val::nil());
    assert!(!Val::object(Obj::Function(with_constant)).is_falsey());
}

#[test]
fn values_tell_their_kind() {
    assert!(Val::boolean(true).is_boolean());
    assert!(Val::nil().is_nil());
    assert!(num(1.0).is_number());
    assert!(string("s").is_object());
    assert!(string("s").is_string());
    assert!(!function("f").is_string());
    assert!(!num(1.0).is_boolean());
    assert!(!Val::nil().is_object());
    assert_eq!(Val::boolean(true).value_type, ValueType::Boolean(true));
    assert_eq!(Val::nil().value_type, ValueType::Nil);
}

#[test]
fn values_convert_as_asked() {
    assert!(Val::boolean(true).as_bool());
    assert!(!Val::boolean(false).as_bool());
    assert!(num(3.0).as_bool());
    assert!(!num(0.0).as_bool());
    assert!(num(f64::NAN).as_bool());
    assert_eq!(f64::from_bits(Val::boolean(true).as_number()), 1.0);
    assert_eq!(f64::from_bits(Val::boolean(false).as_number()), 0.0);
    assert_eq!(f64::from_bits(num(2.5).as_number()), 2.5);
    assert_eq!(string("abc").as_object_string(), StringObject::new("abc"));
    assert_eq!(function("f").as_object_string(), StringObject::new("f"));
    assert_eq!(string("abc").as_string(), "abc");
    assert_eq!(function("f").as_string(), "f");
    assert_eq!(function("").as_string(), "<main>");
}

#[test]
fn as_object_stands_in_for_what_is_no_object() {
    assert_eq!(string("s").as_object(), Obj::String(StringObject::new("s")));
    assert_eq!(Val::boolean(true).as_object(), Obj::String(StringObject::new("false")));
    assert_eq!(Val::nil().as_object(), Obj::String(StringObject::new("nil")));
    assert_eq!(num(7.0).as_object(), Obj::String(StringObject::new("0.0")));
}

#[test]
fn values_are_written_as_text() {
    let none: &[u8] = &[];
    assert_eq!(Val::boolean(true).to_text(none), "true".as_bytes());
    assert_eq!(Val::boolean(false).to_text(none), "false".as_bytes());
    assert_eq!(Val::nil().to_text(none), "nil".as_bytes());
    assert_eq!(num(7.0).to_text("7".as_bytes()), "7".as_bytes());
    assert_eq!(string("hi there").to_text(none), "hi there".as_bytes());
    assert_eq!(string("").to_text(none), "".as_bytes());
    assert_eq!(function("fib").to_text(none), "<fib>".as_bytes());
    assert_eq!(function("").to_text(none), "<main>".as_bytes());
    assert_eq!(native("clock").to_text(none), "<native clock>".as_bytes());
}

#[test]
fn a_value_equals_itself_unless_it_is_a_nan() {
    let values = vec![
        Val::boolean(true),
        Val::boolean(false),
        Val::nil(),
        num(0.0),
        num(1.5),
        num(f64::INFINITY),
        string(""),
        string("same"),
        function("f"),
        native("clock"),
    ];
    for value in values.iter() {
        assert!(values_equal(value, value), "{:?}", value);
        assert!(values_equal(value, &value.clone()));
        assert!(same_value(value, &value.clone()));
    }
    assert!(!values_equal(&num(f64::NAN), &num(f64::NAN)));
    assert!(same_value(&num(f64::NAN), &num(f64::NAN)));
}

#[test]
fn values_of_different_kinds_are_not_equal() {
    let values =
        vec![Val::boolean(false), Val::nil(), num(0.0), string("0"), function("f"), native("f")];
    for (i, a) in values.iter().enumerate() {
        for (j, b) in values.iter().enumerate() {
            assert_eq!(values_equal(a, b), i == j, "{:?} {:?}", a, b);
        }
    }
}

#[test]
fn equality_goes_by_value() {
    assert!(values_equal(&num(0.0), &num(-0.0)));
    assert!(!same_value(&num(0.0), &num(-0.0)));
    assert!(values_equal(&string("abc"), &string("abc")));
    assert!(!values_equal(&string("abc"), &string("abd")));
    assert!(!values_equal(&num(1.0), &num(2.0)));
    assert!(!values_equal(&Val::boolean(true), &Val::boolean(false)));
    assert!(!values_equal(&function("f"), &function("g")));
    let vm = VM::new();
    assert_eq!(vm.values_equal(num(1.0), num(1.0)), Val::boolean(true));
    assert_eq!(vm.values_equal(num(1.0), Val::nil()), Val::boolean(false));
}

#[test]
fn strings_with_one_text_but_another_hash_are_equal_values() {
    let a = StringObject::new("abc");
    let mut b = StringObject::new("abc");
    b.hash = b.hash.wrapping_add(1);
    assert!(!a.same(&b));
    assert!(values_equal(&Val::object(Obj::String(a)), &Val::object(Obj::String(b))));
}

#[test]
fn pools_hold_values_in_order() {
    let mut pool = Value::new();
    pool.write(num(1.0));
    pool.write(Val::nil());
    assert_eq!(pool.values, vec![num(1.0), Val::nil()]);
    assert_eq!(pool.clone(), pool);
    pool.free_value();
    assert!(pool.values.is_empty());
    assert_eq!(Value::default(), pool);
}

#[test]
fn a_new_function_is_the_empty_script() {
    let f = FunctionObject::new();
    assert_eq!(f.arity, 0);
    assert!(f.name.is_empty());
    assert!(f.chunk.code.is_empty());
    assert_eq!(FunctionObject::default(), f);
    assert_eq!(f.clone(), f);
}

#[test]
fn an_error_reports_its_line_source_and_message() {
    let error = LinenError::new("Unexpected token".to_string(), 12, "<REPL>".to_string());
    assert_eq!(error.report(), "[line 12] Error at <REPL>: Unexpected token");
    let first = LinenError::new(String::new(), 0, String::new());
    assert_eq!(first.report(), "[line 0] Error at : ");
    let big = LinenError::new("m".to_string(), 1234567890, "s".to_string());
    assert_eq!(big.report(), "[line 1234567890] Error at s: m");
}

use csml_interpreter::component::{gen_generic_component, merge_values};
use csml_interpreter::error::ErrorKind;
use csml_interpreter::int_methods::lookup_int_method;
use csml_interpreter::json::{Interval, JsonValue};
use csml_interpreter::interpreter::text_of_value;
use csml_interpreter::value::{binary_op, float_binary, int_to_decimal, is_cmp, is_eq, is_truthy, BinOp, Literal, PrimitiveInt, Right};

fn pos() -> Interval {
    Interval { line: 3, column: 4 }
}

fn num(n: i64) -> JsonValue {
    JsonValue::Number(n)
}

fn s(v: &str) -> JsonValue {
    JsonValue::String(v.to_string())
}

fn obj(entries: Vec<(&str, JsonValue)>) -> JsonValue {
    JsonValue::Object(entries.into_iter().map(|(k, v)| (k.to_string(), v)).collect())
}

fn exec(value: i64, name: &str, args: Vec<Literal>) -> Result<JsonValue, ErrorKind> {
    PrimitiveInt::new(value)
        .do_exec(name, &args, pos())
        .map(|(lit, right)| {
            assert_eq!(right, Right::Read);
            assert_eq!(lit.interval, pos());
            lit.primitive
        })
        .map_err(|e| e.kind)
}

#[test]
fn integer_arithmetic_stays_integer() {
    let a = PrimitiveInt::new(7);
    assert_eq!(a.do_add(&num(5)).unwrap(), num(12));
    assert_eq!(a.do_sub(&num(10)).unwrap(), num(-3));
    assert_eq!(a.do_mul(&num(-6)).unwrap(), num(-42));
    assert_eq!(a.do_rem(&num(3)).unwrap(), num(1));
    assert_eq!(PrimitiveInt::new(-7).do_rem(&num(3)).unwrap(), num(-1));
    assert_eq!(a.do_bitand(&num(3)).unwrap(), num(3));
    assert_eq!(a.do_bitor(&num(8)).unwrap(), num(15));
    assert_eq!(PrimitiveInt::new(6).do_div(&num(3)).unwrap(), num(2));
    assert_eq!(PrimitiveInt::new(-6).do_div(&num(3)).unwrap(), num(-2));
}

#[test]
fn uneven_division_gives_the_floating_kind() {
    assert_eq!(PrimitiveInt::new(7).do_div(&num(2)).unwrap(), JsonValue::Quotient(7, 2));
    assert_eq!(PrimitiveInt::new(-7).do_div(&num(2)).unwrap(), JsonValue::Quotient(-7, 2));
}

#[test]
fn division_by_zero_fails() {
    let a = PrimitiveInt::new(7);
    assert_eq!(a.do_div(&num(0)).unwrap_err().kind, ErrorKind::DivisionByZero);
    assert_eq!(a.do_rem(&num(0)).unwrap_err().kind, ErrorKind::DivisionByZero);
    assert_eq!(PrimitiveInt::new(0).do_div(&num(0)).unwrap_err().kind, ErrorKind::DivisionByZero);
}

#[test]
fn integer_overflow_fails() {
    let max = PrimitiveInt::new(i64::MAX);
    assert_eq!(max.do_add(&num(1)).unwrap_err().kind, ErrorKind::Overflow);
    assert_eq!(max.do_mul(&num(2)).unwrap_err().kind, ErrorKind::Overflow);
    let min = PrimitiveInt::new(i64::MIN);
    assert_eq!(min.do_sub(&num(1)).unwrap_err().kind, ErrorKind::Overflow);
    assert_eq!(min.do_div(&num(-1)).unwrap_err().kind, ErrorKind::Overflow);
    assert_eq!(min.do_rem(&num(-1)).unwrap(), num(0));
}

#[test]
fn cross_kind_arithmetic_fails() {
    let a = PrimitiveInt::new(1);
    assert_eq!(a.do_add(&s("1")).unwrap_err().kind, ErrorKind::TypeMismatch);
    assert_eq!(a.do_div(&JsonValue::Quotient(1, 2)).unwrap_err().kind, ErrorKind::TypeMismatch);
    assert_eq!(a.do_bitor(&JsonValue::Bool(true)).unwrap_err().kind, ErrorKind::TypeMismatch);
}

#[test]
fn comparisons_of_values() {
    assert!(is_eq(&num(3), &num(3)));
    assert!(!is_eq(&num(3), &s("3")));
    assert!(is_eq(&JsonValue::Quotient(1, 2), &JsonValue::Quotient(2, 4)));
    assert_eq!(is_cmp(&num(1), &num(2)), Some(std::cmp::Ordering::Less));
    assert_eq!(is_cmp(&JsonValue::Quotient(1, 2), &JsonValue::Quotient(1, 3)), Some(std::cmp::Ordering::Greater));
    assert_eq!(is_cmp(&JsonValue::Quotient(1, -2), &JsonValue::Quotient(1, 3)), Some(std::cmp::Ordering::Less));
    assert_eq!(is_cmp(&num(1), &s("1")), None);
    assert_eq!(is_cmp(&s("a"), &s("b")), Some(std::cmp::Ordering::Less));
    let p = PrimitiveInt::new(5);
    assert!(p.is_eq(&num(5)));
    assert_eq!(p.is_cmp(&num(9)), Some(std::cmp::Ordering::Less));
    assert!(p.as_bool());
    assert!(!PrimitiveInt::new(0).as_bool());
    assert_eq!(p.to_json(), num(5));
}

#[test]
fn decimal_text_of_integers() {
    assert_eq!(int_to_decimal(0), "0");
    assert_eq!(int_to_decimal(1234), "1234");
    assert_eq!(int_to_decimal(-56), "-56");
    assert_eq!(int_to_decimal(i64::MIN), "-9223372036854775808");
    assert_eq!(PrimitiveInt::new(i64::MAX).to_string(), "9223372036854775807");
}

#[test]
fn integer_methods() {
    assert_eq!(exec(5, "type_of", vec![]).unwrap(), s("int"));
    assert_eq!(exec(-42, "to_string", vec![]).unwrap(), s("-42"));
    assert_eq!(exec(-5, "abs", vec![]).unwrap(), num(5));
    assert_eq!(exec(i64::MIN, "abs", vec![]).unwrap(), num(i64::MAX));
    assert_eq!(exec(9, "floor", vec![]).unwrap(), num(9));
    assert_eq!(exec(17, "sqrt", vec![]).unwrap(), num(4));
    assert_eq!(exec(16, "sqrt", vec![]).unwrap(), num(4));
    assert_eq!(exec(-3, "sqrt", vec![]).unwrap(), num(0));
    assert_eq!(exec(i64::MAX, "sqrt", vec![]).unwrap(), num(3037000499));
    assert_eq!(exec(3, "is_number", vec![]).unwrap(), JsonValue::Bool(true));
    assert_eq!(exec(3, "to_int", vec![]).unwrap(), num(3));
    assert_eq!(exec(3, "to_float", vec![]).unwrap(), JsonValue::Quotient(3, 1));
}

#[test]
fn pow_method() {
    let arg = |n: i64| vec![PrimitiveInt::get_literal("int", n, pos())];
    assert_eq!(exec(2, "pow", arg(10)).unwrap(), num(1024));
    assert_eq!(exec(-3, "pow", arg(3)).unwrap(), num(-27));
    assert_eq!(exec(5, "pow", arg(0)).unwrap(), num(1));
    assert_eq!(exec(-1, "pow", arg(4_000_000_001)).unwrap(), num(-1));
    assert_eq!(exec(-2, "pow", arg(63)).unwrap(), num(i64::MIN));
    assert_eq!(exec(2, "pow", arg(63)).unwrap_err(), ErrorKind::Overflow);
    assert_eq!(exec(2, "pow", arg(-1)).unwrap_err(), ErrorKind::UsageError);
    let half = vec![Literal { content_type: "float".to_string(), primitive: JsonValue::Quotient(7, 2), interval: pos() }];
    assert_eq!(exec(2, "pow", half).unwrap(), num(8));
    let text = vec![Literal { content_type: "string".to_string(), primitive: s("2"), interval: pos() }];
    assert_eq!(exec(2, "pow", text).unwrap_err(), ErrorKind::UsageError);
    assert_eq!(exec(2, "pow", vec![]).unwrap_err(), ErrorKind::UsageError);
}

#[test]
fn method_errors() {
    assert_eq!(exec(1, "length", vec![]).unwrap_err(), ErrorKind::UnknownMethod);
    assert_eq!(exec(1, "cos", vec![]).unwrap_err(), ErrorKind::HostComputed);
    assert_eq!(exec(1, "abs", vec![PrimitiveInt::get_literal("int", 1, pos())]).unwrap_err(), ErrorKind::UsageError);
    assert!(lookup_int_method("sin").is_some());
    assert!(lookup_int_method("sinus").is_none());
}

#[test]
fn schema_values_merge_by_kind() {
    assert_eq!(merge_values(&s("ab"), &s("cd")).unwrap(), s("abcd"));
    assert_eq!(merge_values(&JsonValue::Bool(false), &JsonValue::Bool(true)).unwrap(), JsonValue::Bool(true));
    assert_eq!(merge_values(&num(2), &num(3)).unwrap(), num(5));
    assert_eq!(merge_values(&JsonValue::Null, &JsonValue::Null).unwrap(), JsonValue::Null);
    assert_eq!(
        merge_values(&JsonValue::Array(vec![num(1)]), &JsonValue::Array(vec![num(2), num(3)])).unwrap(),
        JsonValue::Array(vec![num(1), num(2), num(3)])
    );
    assert_eq!(
        merge_values(&obj(vec![("a", num(1)), ("b", num(2))]), &obj(vec![("b", num(9)), ("c", num(3))])).unwrap(),
        obj(vec![("a", num(1)), ("b", num(9)), ("c", num(3))])
    );
    assert_eq!(merge_values(&s("a"), &num(1)).unwrap_err().kind, ErrorKind::TypeMismatch);
    assert_eq!(merge_values(&num(i64::MAX), &num(1)).unwrap_err().kind, ErrorKind::Overflow);
}

fn args() -> Literal {
    Literal { content_type: "null".to_string(), primitive: JsonValue::Null, interval: pos() }
}

#[test]
fn self_fetching_field_is_circular() {
    let header = obj(vec![(
        "f",
        obj(vec![("type", s("String")), ("default_value", JsonValue::Array(vec![obj(vec![("$_get", s("f"))])]))]),
    )]);
    let err = gen_generic_component("Comp", &pos(), &args(), &header).unwrap_err();
    assert_eq!(err.kind, ErrorKind::CircularDependency);
}

#[test]
fn component_fields_fold_their_rules() {
    let header = obj(vec![
        ("_primary", s("title")),
        (
            "title",
            obj(vec![
                ("type", s("String")),
                ("default_value", JsonValue::Array(vec![obj(vec![("$_set", s("Hello"))])])),
                ("add_value", JsonValue::Array(vec![obj(vec![("$_set", s("!"))])])),
            ]),
        ),
        (
            "full",
            obj(vec![
                ("type", s("String")),
                ("default_value", JsonValue::Array(vec![obj(vec![("$_get", s("title")), ("$_set", s(" there"))])])),
            ]),
        ),
        ("flags", obj(vec![("type", s("Array"))])),
    ]);
    let lit = gen_generic_component("Card", &pos(), &args(), &header).unwrap();
    assert_eq!(lit.content_type, "Card");
    assert_eq!(lit.interval, pos());
    assert_eq!(
        lit.primitive,
        obj(vec![("title", s("Hello!")), ("full", s("Hello! there")), ("flags", JsonValue::Array(vec![]))])
    );
}

#[test]
fn component_errors() {
    let required = obj(vec![("f", obj(vec![("type", s("String")), ("required", JsonValue::Bool(true))]))]);
    assert_eq!(gen_generic_component("C", &pos(), &args(), &required).unwrap_err().kind, ErrorKind::MissingRequiredField);
    let untyped = obj(vec![("f", obj(vec![]))]);
    assert_eq!(gen_generic_component("C", &pos(), &args(), &untyped).unwrap_err().kind, ErrorKind::UsageError);
    let not_object = obj(vec![("f", obj(vec![("type", s("Bool")), ("default_value", JsonValue::Array(vec![num(1)]))]))]);
    assert_eq!(gen_generic_component("C", &pos(), &args(), &not_object).unwrap_err().kind, ErrorKind::UsageError);
    let empty = gen_generic_component("C", &pos(), &args(), &JsonValue::Null).unwrap();
    assert_eq!(empty.primitive, JsonValue::Object(vec![]));
}

#[test]
fn truthiness_by_kind() {
    assert!(is_truthy(&num(1)));
    assert!(!is_truthy(&num(0)));
    assert!(!is_truthy(&num(-3)));
    assert!(is_truthy(&JsonValue::Quotient(-1, -2)));
    assert!(!is_truthy(&JsonValue::Quotient(-1, 2)));
    assert!(is_truthy(&JsonValue::Bool(true)));
    assert!(!is_truthy(&JsonValue::Null));
    assert!(is_truthy(&s("x")));
    assert!(!is_truthy(&s("")));
    assert!(!is_truthy(&JsonValue::Array(vec![])));
    assert!(is_truthy(&obj(vec![("a", JsonValue::Null)])));
}

#[test]
fn values_read_as_text() {
    assert_eq!(text_of_value(&num(-12)), "-12");
    assert_eq!(text_of_value(&JsonValue::Bool(false)), "false");
    assert_eq!(text_of_value(&JsonValue::Null), "null");
    assert_eq!(text_of_value(&s("hey")), "hey");
    assert_eq!(text_of_value(&JsonValue::Quotient(-1, 3)), "-1/3");
    assert_eq!(text_of_value(&JsonValue::Array(vec![])), "[]");
    assert_eq!(
        text_of_value(&obj(vec![("a", JsonValue::Array(vec![num(1), JsonValue::Null])), ("b", s("c"))])),
        "{\"a\":[1,null],\"b\":\"c\"}"
    );
}

#[test]
fn texts_order_and_composites_compare_by_structure() {
    assert_eq!(is_cmp(&s("a"), &s("b")), Some(std::cmp::Ordering::Less));
    assert_eq!(is_cmp(&s("b"), &s("a")), Some(std::cmp::Ordering::Greater));
    assert_eq!(is_cmp(&s("ab"), &s("a")), Some(std::cmp::Ordering::Greater));
    assert_eq!(is_cmp(&s(""), &s("")), Some(std::cmp::Ordering::Equal));
    let a1 = JsonValue::Array(vec![num(1), obj(vec![("k", s("v"))])]);
    let a2 = JsonValue::Array(vec![num(1), obj(vec![("k", s("v"))])]);
    let a3 = JsonValue::Array(vec![num(1), obj(vec![("k", s("w"))])]);
    assert!(is_eq(&a1, &a2));
    assert!(!is_eq(&a1, &a3));
    assert_eq!(is_cmp(&a1, &a2), Some(std::cmp::Ordering::Equal));
    assert_eq!(is_cmp(&a1, &a3), None);
    assert!(is_eq(&obj(vec![]), &obj(vec![])));
    assert!(!is_eq(&obj(vec![]), &JsonValue::Array(vec![])));
}

#[test]
fn error_messages_name_operator_method_and_signature() {
    let a = PrimitiveInt::new(1);
    assert_eq!(a.do_add(&s("1")).unwrap_err().message, "[!] Add: Illegal operation");
    assert_eq!(a.do_bitor(&s("1")).unwrap_err().message, "[!] BitOr: Illegal operation");
    assert_eq!(binary_op(BinOp::Rem, &s("a"), &num(1)).unwrap_err().message, "[!] Rem: Illegal operation");
    let e = a.do_exec("length", &vec![], pos()).unwrap_err();
    assert_eq!(e.message, "unknown method 'length' for type Int");
    let e = a.do_exec("pow", &vec![], pos()).unwrap_err();
    assert_eq!(e.kind, ErrorKind::UsageError);
    assert_eq!(e.message, "usage: pow(Primitive<Int || Float>)");
    let e = a.do_exec("abs", &vec![PrimitiveInt::get_literal("int", 1, pos())], pos()).unwrap_err();
    assert_eq!(e.message, "usage: abs()");
}

#[test]
fn quotient_arithmetic_is_exact() {
    let q = |n: i64, d: i64| JsonValue::Quotient(n, d);
    assert_eq!(float_binary(BinOp::Add, 1, 2, &q(1, 3)).unwrap(), q(5, 6));
    assert_eq!(float_binary(BinOp::Sub, 1, 2, &q(1, 3)).unwrap(), q(1, 6));
    assert_eq!(float_binary(BinOp::Mul, 1, 2, &q(2, 3)).unwrap(), q(2, 6));
    assert_eq!(float_binary(BinOp::Div, 1, 2, &q(1, 4)).unwrap(), q(4, 2));
    assert_eq!(float_binary(BinOp::Rem, 7, 2, &q(3, 2)).unwrap(), q(2, 4));
    assert_eq!(float_binary(BinOp::Div, 1, 2, &q(0, 5)).unwrap_err().kind, ErrorKind::DivisionByZero);
    assert_eq!(float_binary(BinOp::Rem, 1, 2, &q(0, 5)).unwrap_err().kind, ErrorKind::DivisionByZero);
    assert_eq!(float_binary(BinOp::BitAnd, 1, 2, &q(1, 2)).unwrap_err().kind, ErrorKind::TypeMismatch);
    assert_eq!(float_binary(BinOp::Add, 1, 2, &num(1)).unwrap_err().kind, ErrorKind::TypeMismatch);
    assert_eq!(float_binary(BinOp::Mul, i64::MAX, 1, &q(2, 1)).unwrap_err().kind, ErrorKind::Overflow);
    assert_eq!(
        float_binary(BinOp::Add, i64::MIN, i64::MIN, &q(i64::MIN, i64::MIN)).unwrap_err().kind,
        ErrorKind::Overflow
    );
}

#[test]
fn operators_dispatch_on_kind() {
    assert_eq!(binary_op(BinOp::Div, &num(7), &num(2)).unwrap(), JsonValue::Quotient(7, 2));
    assert_eq!(binary_op(BinOp::Add, &JsonValue::Quotient(1, 2), &JsonValue::Quotient(1, 2)).unwrap(), JsonValue::Quotient(4, 4));
    assert_eq!(binary_op(BinOp::Add, &s("a"), &s("b")).unwrap_err().kind, ErrorKind::TypeMismatch);
    assert_eq!(binary_op(BinOp::Rem, &num(5), &num(0)).unwrap_err().kind, ErrorKind::DivisionByZero);
}

use vstd::prelude::*;
use crate::error::{ErrorInfo, ErrorKind};
use crate::json::{json_eq, Interval, Json, JsonValue};

verus! {

/// A runtime value: an advisory content-type label, the value itself and
/// where it came from. The kind of the value is the variant of `primitive`:
/// `Number` is the integer kind, `Quotient` the floating kind.
#[derive(Debug, PartialEq)]
pub struct Literal {
    pub content_type: String,
    pub primitive: JsonValue,
    pub interval: Interval,
}

impl Literal {
    pub open spec fn value(&self) -> Json {
        self.primitive@
    }

    /// A copy with the same label, value and position.
    pub fn copy(&self) -> (r: Literal)
        ensures
            r.content_type@ == self.content_type@,
            r.value() == self.value(),
            r.interval == self.interval,
    {
        Literal {
            content_type: self.content_type.clone(),
            primitive: self.primitive.copy(),
            interval: self.interval,
        }
    }

    /// A string literal.
    pub fn string(content_type: &str, text: String, interval: Interval) -> (r: Literal)
        ensures
            r.content_type@ == content_type@,
            r.value() == Json::Str(text@),
            r.interval == interval,
    {
        Literal { content_type: content_type.to_owned(), primitive: JsonValue::String(text), interval }
    }

    /// A boolean literal.
    pub fn boolean(content_type: &str, b: bool, interval: Interval) -> (r: Literal)
        ensures
            r.content_type@ == content_type@,
            r.value() == Json::Bool(b),
            r.interval == interval,
    {
        Literal { content_type: content_type.to_owned(), primitive: JsonValue::Bool(b), interval }
    }
}

/// Which operations a method needs on the value it is called on.
#[derive(Clone, Copy, Debug, PartialEq, Eq, Structural)]
pub enum Right {
    Read,
    Write,
}

/// Integer division rounding toward zero, as the machine does it.
pub open spec fn trunc_div(a: int, b: int) -> int {
    if a >= 0 {
        a / b
    } else {
        -((-a) / b)
    }
}

/// The remainder that goes with `trunc_div`: it has the sign of `a`.
pub open spec fn trunc_rem(a: int, b: int) -> int {
    if a >= 0 {
        a % b
    } else {
        -((-a) % b)
    }
}

pub open spec fn fits_i64(x: int) -> bool {
    i64::MIN <= x <= i64::MAX
}

/// The decimal digits of a natural number.
pub open spec fn digits(n: nat) -> Seq<char>
    decreases n,
{
    if n < 10 {
        seq![digit_char(n)]
    } else {
        digits(n / 10).push(digit_char(n % 10))
    }
}

pub open spec fn digit_char(d: nat) -> char {
    if d == 0 { '0' }
    else if d == 1 { '1' }
    else if d == 2 { '2' }
    else if d == 3 { '3' }
    else if d == 4 { '4' }
    else if d == 5 { '5' }
    else if d == 6 { '6' }
    else if d == 7 { '7' }
    else if d == 8 { '8' }
    else { '9' }
}

/// The decimal text of an integer, with a leading `-` when it is negative.
pub open spec fn decimal(n: int) -> Seq<char> {
    if n < 0 {
        seq!['-'] + digits((-n) as nat)
    } else {
        digits(n as nat)
    }
}

fn digit_str(d: u64) -> (r: &'static str)
    requires
        d < 10,
    ensures
        r@ == seq![digit_char(d as nat)],
{
    proof {
        reveal_strlit("0");
        reveal_strlit("1");
        reveal_strlit("2");
        reveal_strlit("3");
        reveal_strlit("4");
        reveal_strlit("5");
        reveal_strlit("6");
        reveal_strlit("7");
        reveal_strlit("8");
        reveal_strlit("9");
    }
    let r = if d == 0 { "0" }
    else if d == 1 { "1" }
    else if d == 2 { "2" }
    else if d == 3 { "3" }
    else if d == 4 { "4" }
    else if d == 5 { "5" }
    else if d == 6 { "6" }
    else if d == 7 { "7" }
    else if d == 8 { "8" }
    else { "9" };
    assert(r@ =~= seq![digit_char(d as nat)]);
    r
}

fn push_digits(s: &mut String, n: u64)
    ensures
        final(s)@ == old(s)@ + digits(n as nat),
    decreases n,
{
    if n >= 10 {
        push_digits(s, n / 10);
    }
    let d = digit_str(n % 10);
    s.append(d);
    proof {
        if n >= 10 {
            assert(digits(n as nat) == digits((n / 10) as nat).push(digit_char((n % 10) as nat)));
        }
        assert(final(s)@ =~= old(s)@ + digits(n as nat));
    }
}

/// The decimal text of an integer.
pub fn int_to_decimal(n: i64) -> (r: String)
    ensures
        r@ == decimal(n as int),
{
    let mut s = String::new();
    if n < 0 {
        proof { reveal_strlit("-"); }
        s.append("-");
        let m: u64 = if n == i64::MIN { 9223372036854775808u64 } else { (-n) as u64 };
        push_digits(&mut s, m);
        assert(s@ =~= decimal(n as int));
    } else {
        push_digits(&mut s, n as u64);
        assert(s@ =~= decimal(n as int));
    }
    s
}

/// Truthiness: numbers are true when strictly positive, booleans are
/// themselves, text, arrays and objects are true when not empty, null is
/// false.
pub open spec fn truthy(v: Json) -> bool {
    match v {
        Json::Null => false,
        Json::Bool(b) => b,
        Json::Number(n) => n > 0,
        Json::Quotient(n, d) => (n > 0 && d > 0) || (n < 0 && d < 0),
        Json::Str(s) => s.len() > 0,
        Json::Array(items) => items.len() > 0,
        Json::Object(entries) => entries.len() > 0,
    }
}

/// Whether a value counts as true.
pub fn is_truthy(v: &JsonValue) -> (r: bool)
    ensures
        r == truthy(v@),
{
    match v {
        JsonValue::Null => false,
        JsonValue::Bool(b) => *b,
        JsonValue::Number(n) => *n > 0,
        JsonValue::Quotient(n, d) => (*n > 0 && *d > 0) || (*n < 0 && *d < 0),
        JsonValue::String(s) => !s.as_str().is_empty(),
        JsonValue::Array(items) => items.len() > 0,
        JsonValue::Object(entries) => entries.len() > 0,
    }
}

/// Equality of values: two values of one kind that are equal; arrays and
/// objects compare by structure, quotients by the number they stand for.
pub open spec fn value_eq(a: Json, b: Json) -> bool {
    match (a, b) {
        (Json::Null, Json::Null) => true,
        (Json::Bool(x), Json::Bool(y)) => x == y,
        (Json::Number(x), Json::Number(y)) => x == y,
        (Json::Quotient(n1, d1), Json::Quotient(n2, d2)) => n1 * d2 == n2 * d1,
        (Json::Str(x), Json::Str(y)) => x == y,
        (Json::Array(x), Json::Array(y)) => x == y,
        (Json::Object(x), Json::Object(y)) => x == y,
        _ => false,
    }
}

/// The ordering of two values, or `None` when they are incomparable: values
/// of different kinds, and arrays or objects that differ. Texts are ordered
/// lexicographically.
pub open spec fn value_cmp(a: Json, b: Json) -> Option<std::cmp::Ordering> {
    match (a, b) {
        (Json::Null, Json::Null) => Some(std::cmp::Ordering::Equal),
        (Json::Bool(x), Json::Bool(y)) => Some(order_int(if x { 1 } else { 0 }, if y { 1 } else { 0 })),
        (Json::Number(x), Json::Number(y)) => Some(order_int(x, y)),
        (Json::Quotient(n1, d1), Json::Quotient(n2, d2)) => if (d1 > 0) == (d2 > 0) {
            Some(order_int(n1 * d2, n2 * d1))
        } else {
            Some(order_int(n2 * d1, n1 * d2))
        },
        (Json::Str(x), Json::Str(y)) => Some(text_order(x, y)),
        (Json::Array(x), Json::Array(y)) => if x == y { Some(std::cmp::Ordering::Equal) } else { None },
        (Json::Object(x), Json::Object(y)) => if x == y { Some(std::cmp::Ordering::Equal) } else { None },
        _ => None,
    }
}

/// Lexicographic order of texts, character by character; a proper prefix
/// comes first.
pub open spec fn text_order(x: Seq<char>, y: Seq<char>) -> std::cmp::Ordering
    decreases x.len(),
{
    if x.len() == 0 {
        if y.len() == 0 { std::cmp::Ordering::Equal } else { std::cmp::Ordering::Less }
    } else if y.len() == 0 {
        std::cmp::Ordering::Greater
    } else if (x[0] as u32) < (y[0] as u32) {
        std::cmp::Ordering::Less
    } else if (x[0] as u32) > (y[0] as u32) {
        std::cmp::Ordering::Greater
    } else {
        text_order(x.drop_first(), y.drop_first())
    }
}

/// Compares two texts in lexicographic order.
pub fn text_cmp(x: &str, y: &str) -> (r: std::cmp::Ordering)
    ensures
        r == text_order(x@, y@),
{
    let n = x.unicode_len();
    let m = y.unicode_len();
    let mut i: usize = 0;
    assert(x@.subrange(0, n as int) =~= x@);
    assert(y@.subrange(0, m as int) =~= y@);
    while i < n && i < m
        invariant
            n == x@.len(),
            m == y@.len(),
            i <= n,
            i <= m,
            text_order(x@, y@) == text_order(x@.subrange(i as int, n as int), y@.subrange(i as int, m as int)),
        decreases n - i,
    {
        let ghost xs = x@.subrange(i as int, n as int);
        let ghost ys = y@.subrange(i as int, m as int);
        assert(xs.drop_first() =~= x@.subrange(i + 1, n as int));
        assert(ys.drop_first() =~= y@.subrange(i + 1, m as int));
        let a = x.get_char(i) as u32;
        let b = y.get_char(i) as u32;
        assert(xs[0] == x@[i as int] && ys[0] == y@[i as int]);
        if a < b {
            return std::cmp::Ordering::Less;
        } else if a > b {
            return std::cmp::Ordering::Greater;
        }
        i += 1;
    }
    if i == n && i == m {
        std::cmp::Ordering::Equal
    } else if i == n {
        std::cmp::Ordering::Less
    } else {
        std::cmp::Ordering::Greater
    }
}

pub open spec fn order_int(x: int, y: int) -> std::cmp::Ordering {
    if x < y {
        std::cmp::Ordering::Less
    } else if x == y {
        std::cmp::Ordering::Equal
    } else {
        std::cmp::Ordering::Greater
    }
}

fn order_i128(x: i128, y: i128) -> (r: std::cmp::Ordering)
    ensures
        r == order_int(x as int, y as int),
{
    if x < y {
        std::cmp::Ordering::Less
    } else if x == y {
        std::cmp::Ordering::Equal
    } else {
        std::cmp::Ordering::Greater
    }
}

/// `n1 * d2` and `n2 * d1`, which never overflow 128 bits.
fn cross_products(n1: i64, d1: i64, n2: i64, d2: i64) -> (r: (i128, i128))
    ensures
        r.0 == n1 * d2,
        r.1 == n2 * d1,
{
    proof {
        lemma_product_bound(n1 as int, d2 as int);
        lemma_product_bound(n2 as int, d1 as int);
    }
    ((n1 as i128) * (d2 as i128), (n2 as i128) * (d1 as i128))
}

proof fn lemma_product_bound(a: int, b: int)
    requires
        fits_i64(a),
        fits_i64(b),
    ensures
        i128::MIN <= a * b <= i128::MAX,
{
    assert(-0x8000_0000_0000_0000 * 0x8000_0000_0000_0000 <= a * b <= 0x8000_0000_0000_0000 * 0x8000_0000_0000_0000) by (nonlinear_arith)
        requires
            -0x8000_0000_0000_0000 <= a <= 0x7fff_ffff_ffff_ffff,
            -0x8000_0000_0000_0000 <= b <= 0x7fff_ffff_ffff_ffff,
    ;
}

/// Whether two values are equal.
pub fn is_eq(a: &JsonValue, b: &JsonValue) -> (r: bool)
    ensures
        r == value_eq(a@, b@),
{
    match (a, b) {
        (JsonValue::Null, JsonValue::Null) => true,
        (JsonValue::Bool(x), JsonValue::Bool(y)) => *x == *y,
        (JsonValue::Number(x), JsonValue::Number(y)) => *x == *y,
        (JsonValue::Quotient(n1, d1), JsonValue::Quotient(n2, d2)) => {
            let (l, r) = cross_products(*n1, *d1, *n2, *d2);
            l == r
        },
        (JsonValue::String(x), JsonValue::String(y)) => *x == *y,
        (JsonValue::Array(_), JsonValue::Array(_)) | (JsonValue::Object(_), JsonValue::Object(_)) => json_eq(a, b),
        _ => false,
    }
}

/// How two values are ordered, or `None` when they are incomparable.
pub fn is_cmp(a: &JsonValue, b: &JsonValue) -> (r: Option<std::cmp::Ordering>)
    ensures
        r == value_cmp(a@, b@),
{
    match (a, b) {
        (JsonValue::Null, JsonValue::Null) => Some(std::cmp::Ordering::Equal),
        (JsonValue::Bool(x), JsonValue::Bool(y)) => {
            Some(order_i128(if *x { 1 } else { 0 }, if *y { 1 } else { 0 }))
        },
        (JsonValue::Number(x), JsonValue::Number(y)) => Some(order_i128(*x as i128, *y as i128)),
        (JsonValue::Quotient(n1, d1), JsonValue::Quotient(n2, d2)) => {
            let (l, r) = cross_products(*n1, *d1, *n2, *d2);
            // Multiplying by a negative d1 * d2 reverses the order.
            if (*d1 > 0) == (*d2 > 0) {
                Some(order_i128(l, r))
            } else {
                Some(order_i128(r, l))
            }
        },
        (JsonValue::String(x), JsonValue::String(y)) => Some(text_cmp(x.as_str(), y.as_str())),
        (JsonValue::Array(_), JsonValue::Array(_)) | (JsonValue::Object(_), JsonValue::Object(_)) => {
            if json_eq(a, b) { Some(std::cmp::Ordering::Equal) } else { None }
        },
        _ => None,
    }
}

} // verus!

verus! {

/// An outbound message: a content type and a JSON-like payload.
#[derive(Debug, PartialEq)]
pub struct Message {
    pub content_type: String,
    pub content: JsonValue,
}

/// The binary operators of the value system.
#[derive(Clone, Copy, Debug, PartialEq, Eq, Structural)]
pub enum BinOp {
    Add,
    Sub,
    Mul,
    Div,
    Rem,
    BitAnd,
    BitOr,
}

/// An integer result, or `Overflow` when it does not fit in 64 bits.
pub open spec fn checked(x: int) -> Result<Json, ErrorKind> {
    if fits_i64(x) {
        Ok(Json::Number(x))
    } else {
        Err(ErrorKind::Overflow)
    }
}

/// What `op` gives on the integer `a` and the value `other`. Integers combine
/// with integers only. Division by zero fails; a division that does not come
/// out even gives the exact quotient, of the floating kind.
pub open spec fn int_op_result(op: BinOp, a: i64, other: Json) -> Result<Json, ErrorKind> {
    match other {
        Json::Number(b) => match op {
            BinOp::Add => checked(a + b),
            BinOp::Sub => checked(a - b),
            BinOp::Mul => checked(a * b),
            BinOp::Div => if b == 0 {
                Err(ErrorKind::DivisionByZero)
            } else if trunc_rem(a as int, b) != 0 {
                Ok(Json::Quotient(a as int, b))
            } else {
                checked(trunc_div(a as int, b))
            },
            BinOp::Rem => if b == 0 {
                Err(ErrorKind::DivisionByZero)
            } else {
                checked(trunc_rem(a as int, b))
            },
            BinOp::BitAnd => Ok(Json::Number((a & (b as i64)) as int)),
            BinOp::BitOr => Ok(Json::Number((a | (b as i64)) as int)),
        },
        _ => Err(ErrorKind::TypeMismatch),
    }
}

/// The value and error kind of an operator's outcome.
pub open spec fn op_outcome(r: Result<JsonValue, ErrorInfo>) -> Result<Json, ErrorKind> {
    match r {
        Ok(v) => Ok(v@),
        Err(e) => Err(e.kind),
    }
}

pub(crate) proof fn lemma_div_minus_one(a: int)
    ensures
        trunc_rem(a, -1) == 0,
        trunc_div(a, -1) == -a,
{
    assert(a % -1 == 0 && a / -1 == -a) by (nonlinear_arith);
    assert((-a) % -1 == 0 && (-a) / -1 == a) by (nonlinear_arith);
}

pub(crate) proof fn lemma_div_fits(a: int, b: int)
    requires
        fits_i64(a),
        fits_i64(b),
        b != 0,
        b != -1,
    ensures
        fits_i64(trunc_div(a, b)),
        fits_i64(trunc_rem(a, b)),
{
    if a >= 0 {
        if b > 0 {
            assert(0 <= a / b <= a && 0 <= a % b < b) by (nonlinear_arith)
                requires a >= 0, b > 0;
        } else {
            assert(-a <= a / b <= 0 && 0 <= a % b < -b) by (nonlinear_arith)
                requires a >= 0, b <= -2;
        }
    } else {
        let c = -a;
        if b > 0 {
            assert(0 <= c / b <= c && 0 <= c % b < b) by (nonlinear_arith)
                requires c > 0, b > 0;
            if b > 1 {
                assert(c / b < c) by (nonlinear_arith)
                    requires c > 0, b > 1;
            }
        } else {
            assert(-c <= c / b <= 0 && 0 <= c % b < -b) by (nonlinear_arith)
                requires c > 0, b <= -2;
            assert(c / b > -c) by (nonlinear_arith)
                requires c > 0, b <= -2;
        }
    }
}

/// The message of a type mismatch: it names the operator.
pub open spec fn mismatch_message(op: BinOp) -> Seq<char> {
    match op {
        BinOp::Add => "[!] Add: Illegal operation"@,
        BinOp::Sub => "[!] Sub: Illegal operation"@,
        BinOp::Mul => "[!] Mul: Illegal operation"@,
        BinOp::Div => "[!] Div: Illegal operation"@,
        BinOp::Rem => "[!] Rem: Illegal operation"@,
        BinOp::BitAnd => "[!] BitAnd: Illegal operation"@,
        BinOp::BitOr => "[!] BitOr: Illegal operation"@,
    }
}

/// Whether a type mismatch in `r` carries the message that names `op`.
pub open spec fn names_operator(op: BinOp, r: Result<JsonValue, ErrorInfo>) -> bool {
    match r {
        Err(e) => e.kind == ErrorKind::TypeMismatch ==> e.message@ == mismatch_message(op),
        Ok(_) => true,
    }
}

/// The type mismatch error of `op`.
pub fn mismatch_error(op: BinOp) -> (r: ErrorInfo)
    ensures
        r.kind == ErrorKind::TypeMismatch,
        r.message@ == mismatch_message(op),
{
    proof {
        reveal_strlit("[!] Add: Illegal operation");
        reveal_strlit("[!] Sub: Illegal operation");
        reveal_strlit("[!] Mul: Illegal operation");
        reveal_strlit("[!] Div: Illegal operation");
        reveal_strlit("[!] Rem: Illegal operation");
        reveal_strlit("[!] BitAnd: Illegal operation");
        reveal_strlit("[!] BitOr: Illegal operation");
    }
    let message = match op {
        BinOp::Add => "[!] Add: Illegal operation",
        BinOp::Sub => "[!] Sub: Illegal operation",
        BinOp::Mul => "[!] Mul: Illegal operation",
        BinOp::Div => "[!] Div: Illegal operation",
        BinOp::Rem => "[!] Rem: Illegal operation",
        BinOp::BitAnd => "[!] BitAnd: Illegal operation",
        BinOp::BitOr => "[!] BitOr: Illegal operation",
    };
    ErrorInfo::new(ErrorKind::TypeMismatch, message, Interval { line: 0, column: 0 })
}

/// The integer kind of the value system.
#[derive(Clone, Copy, Debug, PartialEq, Eq, Structural)]
pub struct PrimitiveInt {
    pub value: i64,
}


impl PrimitiveInt {
    pub fn new(value: i64) -> (r: Self)
        ensures
            r.value == value,
    {
        PrimitiveInt { value }
    }

    /// An integer literal with the given label.
    pub fn get_literal(content_type: &str, value: i64, interval: Interval) -> (r: Literal)
        ensures
            r.content_type@ == content_type@,
            r.value() == Json::Number(value as int),
            r.interval == interval,
    {
        Literal { content_type: content_type.to_owned(), primitive: JsonValue::Number(value), interval }
    }

    pub fn binary(&self, op: BinOp, other: &JsonValue) -> (r: Result<JsonValue, ErrorInfo>)
        ensures
            op_outcome(r) == int_op_result(op, self.value, other@),
            names_operator(op, r),
    {
        let a = self.value;
        let b = match other {
            JsonValue::Number(b) => *b,
            _ => {
                return Err(mismatch_error(op));
            },
        };
        match op {
            BinOp::Add => match a.checked_add(b) {
                Some(x) => Ok(JsonValue::Number(x)),
                None => Err(ErrorInfo::new(ErrorKind::Overflow, "integer overflow in addition", Interval { line: 0, column: 0 })),
            },
            BinOp::Sub => match a.checked_sub(b) {
                Some(x) => Ok(JsonValue::Number(x)),
                None => Err(ErrorInfo::new(ErrorKind::Overflow, "integer overflow in subtraction", Interval { line: 0, column: 0 })),
            },
            BinOp::Mul => match a.checked_mul(b) {
                Some(x) => Ok(JsonValue::Number(x)),
                None => Err(ErrorInfo::new(ErrorKind::Overflow, "integer overflow in multiplication", Interval { line: 0, column: 0 })),
            },
            BinOp::Div => {
                if b == 0 {
                    Err(ErrorInfo::new(ErrorKind::DivisionByZero, "division by zero", Interval { line: 0, column: 0 }))
                } else if b == -1 {
                    proof { lemma_div_minus_one(a as int); }
                    if a == i64::MIN {
                        Err(ErrorInfo::new(ErrorKind::Overflow, "integer overflow in division", Interval { line: 0, column: 0 }))
                    } else {
                        Ok(JsonValue::Number(-a))
                    }
                } else if a % b != 0 {
                    proof { lemma_div_fits(a as int, b as int); }
                    Ok(JsonValue::Quotient(a, b))
                } else {
                    proof { lemma_div_fits(a as int, b as int); }
                    Ok(JsonValue::Number(a / b))
                }
            },
            BinOp::Rem => {
                if b == 0 {
                    Err(ErrorInfo::new(ErrorKind::DivisionByZero, "remainder by zero", Interval { line: 0, column: 0 }))
                } else if b == -1 {
                    proof { lemma_div_minus_one(a as int); }
                    Ok(JsonValue::Number(0))
                } else {
                    Ok(JsonValue::Number(a % b))
                }
            },
            BinOp::BitAnd => Ok(JsonValue::Number(a & b)),
            BinOp::BitOr => Ok(JsonValue::Number(a | b)),
        }
    }

    pub fn do_add(&self, other: &JsonValue) -> (r: Result<JsonValue, ErrorInfo>)
        ensures
            op_outcome(r) == int_op_result(BinOp::Add, self.value, other@),
            names_operator(BinOp::Add, r),
    {
        self.binary(BinOp::Add, other)
    }

    pub fn do_sub(&self, other: &JsonValue) -> (r: Result<JsonValue, ErrorInfo>)
        ensures
            op_outcome(r) == int_op_result(BinOp::Sub, self.value, other@),
            names_operator(BinOp::Sub, r),
    {
        self.binary(BinOp::Sub, other)
    }

    pub fn do_mul(&self, other: &JsonValue) -> (r: Result<JsonValue, ErrorInfo>)
        ensures
            op_outcome(r) == int_op_result(BinOp::Mul, self.value, other@),
            names_operator(BinOp::Mul, r),
    {
        self.binary(BinOp::Mul, other)
    }

    pub fn do_div(&self, other: &JsonValue) -> (r: Result<JsonValue, ErrorInfo>)
        ensures
            op_outcome(r) == int_op_result(BinOp::Div, self.value, other@),
            names_operator(BinOp::Div, r),
    {
        self.binary(BinOp::Div, other)
    }

    pub fn do_rem(&self, other: &JsonValue) -> (r: Result<JsonValue, ErrorInfo>)
        ensures
            op_outcome(r) == int_op_result(BinOp::Rem, self.value, other@),
            names_operator(BinOp::Rem, r),
    {
        self.binary(BinOp::Rem, other)
    }

    pub fn do_bitand(&self, other: &JsonValue) -> (r: Result<JsonValue, ErrorInfo>)
        ensures
            op_outcome(r) == int_op_result(BinOp::BitAnd, self.value, other@),
            names_operator(BinOp::BitAnd, r),
    {
        self.binary(BinOp::BitAnd, other)
    }

    pub fn do_bitor(&self, other: &JsonValue) -> (r: Result<JsonValue, ErrorInfo>)
        ensures
            op_outcome(r) == int_op_result(BinOp::BitOr, self.value, other@),
            names_operator(BinOp::BitOr, r),
    {
        self.binary(BinOp::BitOr, other)
    }

    pub fn is_eq(&self, other: &JsonValue) -> (r: bool)
        ensures
            r == value_eq(Json::Number(self.value as int), other@),
    {
        is_eq(&JsonValue::Number(self.value), other)
    }

    pub fn is_cmp(&self, other: &JsonValue) -> (r: Option<std::cmp::Ordering>)
        ensures
            r == value_cmp(Json::Number(self.value as int), other@),
    {
        is_cmp(&JsonValue::Number(self.value), other)
    }

    pub fn to_string(&self) -> (r: String)
        ensures
            r@ == decimal(self.value as int),
    {
        int_to_decimal(self.value)
    }

    pub fn as_bool(&self) -> (r: bool)
        ensures
            r == truthy(Json::Number(self.value as int)),
    {
        self.value > 0
    }

    pub fn to_json(&self) -> (r: JsonValue)
        ensures
            r@ == Json::Number(self.value as int),
    {
        JsonValue::Number(self.value)
    }
}

} // verus!

verus! {

/// Integer operators stay within the integer kind: each result of two
/// integers is an integer, except a division with a nonzero divisor that does
/// not divide evenly, which gives the exact quotient of the floating kind. The
/// only failures are overflow and a zero divisor.
pub proof fn law_int_ops_closed(op: BinOp, a: i64, b: i64)
    ensures
        match int_op_result(op, a, Json::Number(b as int)) {
            Ok(v) => v is Number || (op == BinOp::Div && v == Json::Quotient(a as int, b as int)),
            Err(k) => k == ErrorKind::Overflow || (b == 0 && k == ErrorKind::DivisionByZero),
        },
        op == BinOp::Div && b != 0 && trunc_rem(a as int, b as int) != 0 ==> int_op_result(op, a, Json::Number(b as int))
            == Ok::<Json, ErrorKind>(Json::Quotient(a as int, b as int)),
        op == BinOp::Div && b != 0 && trunc_rem(a as int, b as int) == 0 && !(a == i64::MIN && b == -1) ==> int_op_result(op, a, Json::Number(b as int))
            == Ok::<Json, ErrorKind>(Json::Number(trunc_div(a as int, b as int))),
{
    if b != 0 && b != -1 {
        lemma_div_fits(a as int, b as int);
    }
    if b == -1 {
        lemma_div_minus_one(a as int);
    }
}

/// Dividing by zero, or taking a remainder by zero, fails with
/// `DivisionByZero` whatever the dividend.
pub proof fn law_division_by_zero(a: i64)
    ensures
        int_op_result(BinOp::Div, a, Json::Number(0)) == Err::<Json, ErrorKind>(ErrorKind::DivisionByZero),
        int_op_result(BinOp::Rem, a, Json::Number(0)) == Err::<Json, ErrorKind>(ErrorKind::DivisionByZero),
{
}

} // verus!

verus! {

/// A quotient, or `Overflow` when its numerator or denominator does not fit
/// in 64 bits.
pub open spec fn checked_quotient(n: int, d: int) -> Result<Json, ErrorKind> {
    if fits_i64(n) && fits_i64(d) {
        Ok(Json::Quotient(n, d))
    } else {
        Err(ErrorKind::Overflow)
    }
}

/// What `op` gives on the quotient `n1 / d1` and the value `other`.
/// Quotients combine with quotients only, exactly; division and remainder by
/// a zero quotient fail; there are no bitwise operators on this kind.
pub open spec fn float_op_result(op: BinOp, n1: int, d1: int, other: Json) -> Result<Json, ErrorKind> {
    match other {
        Json::Quotient(n2, d2) => match op {
            BinOp::Add => checked_quotient(n1 * d2 + n2 * d1, d1 * d2),
            BinOp::Sub => checked_quotient(n1 * d2 - n2 * d1, d1 * d2),
            BinOp::Mul => checked_quotient(n1 * n2, d1 * d2),
            BinOp::Div => if n2 == 0 {
                Err(ErrorKind::DivisionByZero)
            } else {
                checked_quotient(n1 * d2, d1 * n2)
            },
            BinOp::Rem => if n2 == 0 || d1 == 0 {
                Err(ErrorKind::DivisionByZero)
            } else {
                checked_quotient(trunc_rem(n1 * d2, n2 * d1), d1 * d2)
            },
            BinOp::BitAnd | BinOp::BitOr => Err(ErrorKind::TypeMismatch),
        },
        _ => Err(ErrorKind::TypeMismatch),
    }
}

/// What `op` gives on two values: integers and quotients each combine with
/// their own kind; every other pair is a type mismatch.
pub open spec fn op_result(op: BinOp, a: Json, b: Json) -> Result<Json, ErrorKind> {
    match a {
        Json::Number(x) => if fits_i64(x) { int_op_result(op, x as i64, b) } else { Err(ErrorKind::Overflow) },
        Json::Quotient(n, d) => float_op_result(op, n, d, b),
        _ => Err(ErrorKind::TypeMismatch),
    }
}

fn to_quotient(n: i128, d: i128) -> (r: Result<JsonValue, ErrorInfo>)
    ensures
        op_outcome(r) == checked_quotient(n as int, d as int),
{
    if n < -9223372036854775808i128 || n > 9223372036854775807i128 || d < -9223372036854775808i128 || d > 9223372036854775807i128 {
        Err(ErrorInfo::new(ErrorKind::Overflow, "quotient out of range", Interval { line: 0, column: 0 }))
    } else {
        Ok(JsonValue::Quotient(n as i64, d as i64))
    }
}

proof fn lemma_products(a: int, b: int, c: int, e: int)
    requires
        fits_i64(a),
        fits_i64(b),
        fits_i64(c),
        fits_i64(e),
    ensures
        -0x4000_0000_0000_0000_0000_0000_0000_0000 <= a * b <= 0x4000_0000_0000_0000_0000_0000_0000_0000,
        -0x4000_0000_0000_0000_0000_0000_0000_0000 <= c * e <= 0x4000_0000_0000_0000_0000_0000_0000_0000,
{
    assert(-0x4000_0000_0000_0000_0000_0000_0000_0000 <= a * b <= 0x4000_0000_0000_0000_0000_0000_0000_0000) by (nonlinear_arith)
        requires
            -0x8000_0000_0000_0000 <= a <= 0x7fff_ffff_ffff_ffff,
            -0x8000_0000_0000_0000 <= b <= 0x7fff_ffff_ffff_ffff,
    ;
    assert(-0x4000_0000_0000_0000_0000_0000_0000_0000 <= c * e <= 0x4000_0000_0000_0000_0000_0000_0000_0000) by (nonlinear_arith)
        requires
            -0x8000_0000_0000_0000 <= c <= 0x7fff_ffff_ffff_ffff,
            -0x8000_0000_0000_0000 <= e <= 0x7fff_ffff_ffff_ffff,
    ;
}

proof fn lemma_rem_bound(x: int, y: int)
    requires
        y != 0,
        -0x4000_0000_0000_0000_0000_0000_0000_0000 <= x <= 0x4000_0000_0000_0000_0000_0000_0000_0000,
        -0x4000_0000_0000_0000_0000_0000_0000_0000 <= y <= 0x4000_0000_0000_0000_0000_0000_0000_0000,
    ensures
        -0x4000_0000_0000_0000_0000_0000_0000_0000 <= trunc_rem(x, y) <= 0x4000_0000_0000_0000_0000_0000_0000_0000,
{
    if x >= 0 {
        assert(0 <= x % y <= x) by (nonlinear_arith)
            requires x >= 0, y != 0;
    } else {
        let c = -x;
        assert(0 <= c % y <= c) by (nonlinear_arith)
            requires c > 0, y != 0;
    }
}

/// Applies `op` to the quotient `n1 / d1` and `other`.
pub fn float_binary(op: BinOp, n1: i64, d1: i64, other: &JsonValue) -> (r: Result<JsonValue, ErrorInfo>)
    ensures
        op_outcome(r) == float_op_result(op, n1 as int, d1 as int, other@),
        names_operator(op, r),
{
    let (n2, d2) = match other {
        JsonValue::Quotient(n2, d2) => (*n2, *d2),
        _ => {
            return Err(mismatch_error(op));
        },
    };
    let (a, b, c, d) = (n1 as i128, d1 as i128, n2 as i128, d2 as i128);
    proof {
        lemma_products(a as int, d as int, c as int, b as int);
        lemma_products(b as int, d as int, a as int, c as int);
        lemma_products(b as int, c as int, a as int, d as int);
    }
    match op {
        BinOp::Add => match (a * d).checked_add(c * b) {
            Some(n) => to_quotient(n, b * d),
            None => Err(ErrorInfo::new(ErrorKind::Overflow, "quotient out of range", Interval { line: 0, column: 0 })),
        },
        BinOp::Sub => match (a * d).checked_sub(c * b) {
            Some(n) => to_quotient(n, b * d),
            None => Err(ErrorInfo::new(ErrorKind::Overflow, "quotient out of range", Interval { line: 0, column: 0 })),
        },
        BinOp::Mul => to_quotient(a * c, b * d),
        BinOp::Div => {
            if n2 == 0 {
                Err(ErrorInfo::new(ErrorKind::DivisionByZero, "division by zero", Interval { line: 0, column: 0 }))
            } else {
                to_quotient(a * d, b * c)
            }
        },
        BinOp::Rem => {
            if n2 == 0 || d1 == 0 {
                Err(ErrorInfo::new(ErrorKind::DivisionByZero, "remainder by zero", Interval { line: 0, column: 0 }))
            } else {
                let x = a * d;
                let y = c * b;
                proof {
                    assert(y != 0) by (nonlinear_arith)
                        requires y == c * b, c != 0, b != 0;
                    lemma_rem_bound(x as int, y as int);
                }
                to_quotient(x % y, b * d)
            }
        },
        BinOp::BitAnd | BinOp::BitOr => {
            Err(mismatch_error(op))
        },
    }
}

} // verus!

verus! {

/// Applies a binary operator to two values, dispatching on the kind of the
/// left one.
pub fn binary_op(op: BinOp, a: &JsonValue, b: &JsonValue) -> (r: Result<JsonValue, ErrorInfo>)
    ensures
        op_outcome(r) == op_result(op, a@, b@),
        names_operator(op, r),
{
    match a {
        JsonValue::Number(x) => PrimitiveInt::new(*x).binary(op, b),
        JsonValue::Quotient(n, d) => float_binary(op, *n, *d, b),
        _ => Err(mismatch_error(op)),
    }
}

/// The arithmetic operators of the floating kind stay within it: each
/// result of two quotients is a quotient. The only failures are overflow and
/// a zero divisor.
pub proof fn law_float_ops_closed(op: BinOp, n1: i64, d1: i64, n2: i64, d2: i64)
    requires
        op != BinOp::BitAnd,
        op != BinOp::BitOr,
    ensures
        match float_op_result(op, n1 as int, d1 as int, Json::Quotient(n2 as int, d2 as int)) {
            Ok(v) => v is Quotient,
            Err(k) => k == ErrorKind::Overflow || ((op == BinOp::Div || op == BinOp::Rem) && k == ErrorKind::DivisionByZero),
        },
{
}

/// Dividing a quotient by a zero quotient, or taking a remainder by one,
/// fails with `DivisionByZero`.
pub proof fn law_float_division_by_zero(n1: i64, d1: i64, d2: i64)
    ensures
        float_op_result(BinOp::Div, n1 as int, d1 as int, Json::Quotient(0, d2 as int)) == Err::<Json, ErrorKind>(ErrorKind::DivisionByZero),
        float_op_result(BinOp::Rem, n1 as int, d1 as int, Json::Quotient(0, d2 as int)) == Err::<Json, ErrorKind>(ErrorKind::DivisionByZero),
{
}

} // verus!

use vstd::prelude::*;
use crate::error::{ErrorInfo, ErrorKind};
use crate::json::{text_eq, Interval, Json, JsonValue};
use crate::value::{lemma_div_fits, lemma_div_minus_one, checked, decimal, fits_i64, int_to_decimal, trunc_div, Literal, PrimitiveInt, Right};

verus! {

/// The methods that an integer answers to.
#[derive(Clone, Copy, Debug, PartialEq, Eq, Structural)]
pub enum IntMethod {
    TypeOf,
    ToString,
    Abs,
    Cos,
    Pow,
    Floor,
    Ceil,
    Round,
    Sin,
    Sqrt,
    Tan,
    IsNumber,
    ToInt,
    ToFloat,
}

/// The method registry of the integer kind: name to method.
pub open spec fn int_method_of(name: Seq<char>) -> Option<IntMethod> {
    if name == "type_of"@ { Some(IntMethod::TypeOf) }
    else if name == "to_string"@ { Some(IntMethod::ToString) }
    else if name == "abs"@ { Some(IntMethod::Abs) }
    else if name == "cos"@ { Some(IntMethod::Cos) }
    else if name == "pow"@ { Some(IntMethod::Pow) }
    else if name == "floor"@ { Some(IntMethod::Floor) }
    else if name == "ceil"@ { Some(IntMethod::Ceil) }
    else if name == "round"@ { Some(IntMethod::Round) }
    else if name == "sin"@ { Some(IntMethod::Sin) }
    else if name == "sqrt"@ { Some(IntMethod::Sqrt) }
    else if name == "tan"@ { Some(IntMethod::Tan) }
    else if name == "is_number"@ { Some(IntMethod::IsNumber) }
    else if name == "to_int"@ { Some(IntMethod::ToInt) }
    else if name == "to_float"@ { Some(IntMethod::ToFloat) }
    else { None }
}

/// The message for a method name that the integer kind lacks.
pub open spec fn unknown_message(name: Seq<char>) -> Seq<char> {
    "unknown method '"@ + name + "' for type Int"@
}

/// The usage message of `pow`, which cites its signature.
pub open spec fn pow_usage() -> Seq<char> {
    "usage: pow(Primitive<Int || Float>)"@
}

/// The usage message of a method without arguments.
pub open spec fn usage_message(name: Seq<char>) -> Seq<char> {
    "usage: "@ + name + "()"@
}

/// The number of arguments that a method takes.
pub open spec fn arity(m: IntMethod) -> nat {
    if m == IntMethod::Pow { 1 } else { 0 }
}

/// `a` to the power `e`.
pub open spec fn pow_int(a: int, e: nat) -> int
    decreases e,
{
    if e == 0 { 1 } else { a * pow_int(a, (e - 1) as nat) }
}

/// The integer square root of `n`: the largest `r` with `r * r <= n`.
pub open spec fn isqrt(n: nat) -> nat
    decreases n,
{
    if n == 0 {
        0
    } else {
        let r = isqrt((n - 1) as nat);
        if (r + 1) * (r + 1) <= n { r + 1 } else { r }
    }
}

/// The exponent that `pow` reads from its argument: an integer, or the
/// integer part of a quotient, from 0 to `u32::MAX`.
pub open spec fn exponent_of(v: Json) -> Option<nat> {
    match v {
        Json::Number(e) => if 0 <= e <= u32::MAX { Some(e as nat) } else { None },
        Json::Quotient(n, d) => if d != 0 && 0 <= trunc_div(n, d) <= u32::MAX { Some(trunc_div(n, d) as nat) } else { None },
        _ => None,
    }
}

/// What calling method `m` on the integer `a` with arguments `args` gives:
/// the label and value of the result, or the kind of the failure. The
/// trigonometric methods need floating point and are left to the host.
pub open spec fn int_method_result(m: IntMethod, a: i64, args: Seq<Json>) -> Result<(Seq<char>, Json), ErrorKind> {
    if args.len() != arity(m) {
        Err(ErrorKind::UsageError)
    } else {
        match m {
            IntMethod::TypeOf => Ok(("string"@, Json::Str("int"@))),
            IntMethod::ToString => Ok(("string"@, Json::Str(decimal(a as int)))),
            IntMethod::Abs => Ok(("int"@, Json::Number(if a == i64::MIN { i64::MAX as int } else if a < 0 { -a } else { a as int }))),
            IntMethod::Floor | IntMethod::Ceil | IntMethod::Round | IntMethod::ToInt => Ok(("int"@, Json::Number(a as int))),
            IntMethod::Sqrt => Ok(("int"@, Json::Number(if a < 0 { 0 } else { isqrt(a as nat) as int }))),
            IntMethod::IsNumber => Ok(("boolean"@, Json::Bool(true))),
            IntMethod::ToFloat => Ok(("float"@, Json::Quotient(a as int, 1))),
            IntMethod::Cos | IntMethod::Sin | IntMethod::Tan => Err(ErrorKind::HostComputed),
            IntMethod::Pow => match exponent_of(args[0]) {
                Some(e) => match checked(pow_int(a as int, e)) {
                    Ok(v) => Ok(("int"@, v)),
                    Err(k) => Err(k),
                },
                None => Err(ErrorKind::UsageError),
            },
        }
    }
}

/// What calling the method named `name` gives: `UnknownMethod` for a name that
/// the registry lacks.
pub open spec fn exec_result(name: Seq<char>, a: i64, args: Seq<Json>) -> Result<(Seq<char>, Json), ErrorKind> {
    match int_method_of(name) {
        Some(m) => int_method_result(m, a, args),
        None => Err(ErrorKind::UnknownMethod),
    }
}

pub open spec fn arg_values(args: Seq<Literal>) -> Seq<Json> {
    args.map_values(|l: Literal| l.value())
}

/// Looks a method up in the registry of the integer kind, with the access
/// right it needs.
pub fn lookup_int_method(name: &str) -> (r: Option<(IntMethod, Right)>)
    ensures
        match r {
            Some((m, right)) => int_method_of(name@) == Some(m) && right == Right::Read,
            None => int_method_of(name@) is None,
        },
{
    proof {
        reveal_strlit("type_of");
        reveal_strlit("to_string");
        reveal_strlit("abs");
        reveal_strlit("cos");
        reveal_strlit("pow");
        reveal_strlit("floor");
        reveal_strlit("ceil");
        reveal_strlit("round");
        reveal_strlit("sin");
        reveal_strlit("sqrt");
        reveal_strlit("tan");
        reveal_strlit("is_number");
        reveal_strlit("to_int");
        reveal_strlit("to_float");
    }
    let m = if text_eq(name, "type_of") { IntMethod::TypeOf }
    else if text_eq(name, "to_string") { IntMethod::ToString }
    else if text_eq(name, "abs") { IntMethod::Abs }
    else if text_eq(name, "cos") { IntMethod::Cos }
    else if text_eq(name, "pow") { IntMethod::Pow }
    else if text_eq(name, "floor") { IntMethod::Floor }
    else if text_eq(name, "ceil") { IntMethod::Ceil }
    else if text_eq(name, "round") { IntMethod::Round }
    else if text_eq(name, "sin") { IntMethod::Sin }
    else if text_eq(name, "sqrt") { IntMethod::Sqrt }
    else if text_eq(name, "tan") { IntMethod::Tan }
    else if text_eq(name, "is_number") { IntMethod::IsNumber }
    else if text_eq(name, "to_int") { IntMethod::ToInt }
    else if text_eq(name, "to_float") { IntMethod::ToFloat }
    else { return None; };
    Some((m, Right::Read))
}

} // verus!

verus! {

proof fn lemma_pow_unit(a: int, e: nat)
    requires
        -1 <= a <= 1,
    ensures
        a == 0 ==> pow_int(a, e) == (if e == 0 { 1int } else { 0int }),
        a == 1 ==> pow_int(a, e) == 1,
        a == -1 ==> pow_int(a, e) == (if e % 2 == 0 { 1int } else { -1int }),
    decreases e,
{
    if e > 0 {
        lemma_pow_unit(a, (e - 1) as nat);
    }
}

proof fn lemma_overflow_stays(a: int, k: nat, e: nat)
    requires
        a >= 2 || a <= -2,
        k <= e,
        !fits_i64(pow_int(a, k)),
    ensures
        !fits_i64(pow_int(a, e)),
    decreases e - k,
{
    if k < e {
        let x = pow_int(a, k);
        assert(!fits_i64(a * x)) by (nonlinear_arith)
            requires
                a >= 2 || a <= -2,
                x > 0x7fff_ffff_ffff_ffff || x < -0x8000_0000_0000_0000,
        ;
        assert(pow_int(a, k + 1) == a * x);
        lemma_overflow_stays(a, k + 1, e);
    }
}

/// `a` to the power `e`, or `None` when that does not fit in 64 bits.
fn checked_pow(a: i64, e: u32) -> (r: Option<i64>)
    ensures
        r == (if fits_i64(pow_int(a as int, e as nat)) { Some(pow_int(a as int, e as nat) as i64) } else { None }),
{
    if -1 <= a && a <= 1 {
        proof { lemma_pow_unit(a as int, e as nat); }
        if a == 0 {
            return if e == 0 { Some(1) } else { Some(0) };
        } else if a == 1 {
            return Some(1);
        } else {
            return if e % 2 == 0 { Some(1) } else { Some(-1) };
        }
    }
    let mut acc: i64 = 1;
    let mut i: u32 = 0;
    while i < e
        invariant
            i <= e,
            acc as int == pow_int(a as int, i as nat),
            a >= 2 || a <= -2,
        decreases e - i,
    {
        match acc.checked_mul(a) {
            Some(x) => {
                acc = x;
            },
            None => {
                proof {
                    assert(pow_int(a as int, (i + 1) as nat) == a * pow_int(a as int, i as nat));
                    lemma_overflow_stays(a as int, (i + 1) as nat, e as nat);
                }
                return None;
            },
        }
        i += 1;
    }
    Some(acc)
}

proof fn lemma_isqrt(n: nat)
    ensures
        (isqrt(n) as int) * (isqrt(n) as int) <= n as int,
        (n as int) < (isqrt(n) as int + 1) * (isqrt(n) as int + 1),
    decreases n,
{
    if n > 0 {
        lemma_isqrt((n - 1) as nat);
        let r = isqrt((n - 1) as nat);
        let ri = r as int;
        let ni = n as int;
        assert(ri * ri <= ni - 1 < (ri + 1) * (ri + 1));
        if (ri + 1) * (ri + 1) > ni {
            assert(isqrt(n) == r);
            assert(ri * ri <= ni);
            assert((isqrt(n) as int) * (isqrt(n) as int) <= n as int);
        } else {
            assert(isqrt(n) == r + 1);
            assert((ri + 1) * (ri + 1) == ni);
            assert(ni < (ri + 2) * (ri + 2)) by (nonlinear_arith)
                requires (ri + 1) * (ri + 1) == ni, ri >= 0;
            assert((isqrt(n) as int) * (isqrt(n) as int) <= n as int);
        }
    } else {
        assert(isqrt(n) == 0);
    }
}

proof fn lemma_isqrt_unique(n: nat, r: int)
    requires
        r >= 0,
        r * r <= n < (r + 1) * (r + 1),
    ensures
        isqrt(n) == r,
{
    lemma_isqrt(n);
    let s = isqrt(n) as int;
    if s < r {
        assert((s + 1) * (s + 1) <= r * r) by (nonlinear_arith)
            requires 0 <= s < r;
    } else if s > r {
        assert((r + 1) * (r + 1) <= s * s) by (nonlinear_arith)
            requires 0 <= r < s;
    }
}

/// The integer square root of a nonnegative integer.
fn int_sqrt(a: i64) -> (r: i64)
    requires
        a >= 0,
    ensures
        r as int == isqrt(a as nat),
{
    let mut lo: i128 = 0;
    let mut hi: i128 = 3037000500;
    assert(3037000500 * 3037000500 > 0x7fff_ffff_ffff_ffff) by (nonlinear_arith);
    while hi - lo > 1
        invariant
            0 <= lo < hi <= 3037000500,
            lo * lo <= a < hi * hi,
        decreases hi - lo,
    {
        let mid = lo + (hi - lo) / 2;
        assert(0 <= mid * mid <= 3037000500 * 3037000500) by (nonlinear_arith)
            requires 0 <= mid <= 3037000500;
        if mid * mid <= a as i128 {
            lo = mid;
        } else {
            hi = mid;
        }
    }
    proof { lemma_isqrt_unique(a as nat, lo as int); }
    lo as i64
}

impl PrimitiveInt {
    /// Calls the method named `name` with `args`, giving its result and the
    /// access right that the method needs.
    pub fn do_exec(&self, name: &str, args: &Vec<Literal>, interval: Interval) -> (r: Result<(Literal, Right), ErrorInfo>)
        ensures
            match r {
                Ok((lit, right)) => exec_result(name@, self.value, arg_values(args@)) == Ok::<(Seq<char>, Json), ErrorKind>((lit.content_type@, lit.value()))
                    && right == Right::Read && lit.interval == interval,
                Err(e) => exec_result(name@, self.value, arg_values(args@)) == Err::<(Seq<char>, Json), ErrorKind>(e.kind)
                    && (int_method_of(name@) is None ==> e.message@ == unknown_message(name@))
                    && (e.kind == ErrorKind::UsageError && int_method_of(name@) == Some(IntMethod::Pow) ==> e.message@ == pow_usage())
                    && (e.kind == ErrorKind::UsageError && int_method_of(name@) != Some(IntMethod::Pow) ==> e.message@ == usage_message(name@)),
            },
    {
        let (m, right) = match lookup_int_method(name) {
            Some(found) => found,
            None => {
                let mut message = "unknown method '".to_owned();
                message.append(name);
                message.append("' for type Int");
                proof {
                    reveal_strlit("unknown method '");
                    reveal_strlit("' for type Int");
                }
                return Err(ErrorInfo { kind: ErrorKind::UnknownMethod, message, interval });
            },
        };
        let need: usize = if m == IntMethod::Pow { 1 } else { 0 };
        if args.len() != need {
            if need == 1 {
                proof { reveal_strlit("usage: pow(Primitive<Int || Float>)"); }
                return Err(ErrorInfo::new(ErrorKind::UsageError, "usage: pow(Primitive<Int || Float>)", interval));
            }
            let mut message = "usage: ".to_owned();
            message.append(name);
            message.append("()");
            proof {
                reveal_strlit("usage: ");
                reveal_strlit("()");
            }
            return Err(ErrorInfo { kind: ErrorKind::UsageError, message, interval });
        }
        let a = self.value;
        assert(arg_values(args@).len() == args@.len());
        if need == 1 {
            assert(arg_values(args@)[0] == args@[0].value());
        }
        proof {
            reveal_strlit("usage: pow(Primitive<Int || Float>)");
            reveal_strlit("string");
            reveal_strlit("int");
            reveal_strlit("boolean");
            reveal_strlit("float");
        }
        let lit = match m {
            IntMethod::TypeOf => Literal::string("string", "int".to_owned(), interval),
            IntMethod::ToString => Literal::string("string", int_to_decimal(a), interval),
            IntMethod::Abs => {
                let v = if a == i64::MIN { i64::MAX } else if a < 0 { -a } else { a };
                PrimitiveInt::get_literal("int", v, interval)
            },
            IntMethod::Floor | IntMethod::Ceil | IntMethod::Round | IntMethod::ToInt => PrimitiveInt::get_literal("int", a, interval),
            IntMethod::Sqrt => PrimitiveInt::get_literal("int", if a < 0 { 0 } else { int_sqrt(a) }, interval),
            IntMethod::IsNumber => Literal::boolean("boolean", true, interval),
            IntMethod::ToFloat => Literal {
                content_type: "float".to_owned(),
                primitive: JsonValue::Quotient(a, 1),
                interval,
            },
            IntMethod::Cos | IntMethod::Sin | IntMethod::Tan => {
                return Err(ErrorInfo::new(ErrorKind::HostComputed, "this method needs floating point", interval));
            },
            IntMethod::Pow => {
                let ghost arg = arg_values(args@)[0];
                let e: u32 = match &args[0].primitive {
                    JsonValue::Number(e) => {
                        assert(arg == Json::Number(*e as int));
                        if 0 <= *e && *e <= 4294967295 {
                            *e as u32
                        } else {
                            return Err(ErrorInfo::new(ErrorKind::UsageError, "usage: pow(Primitive<Int || Float>)", interval));
                        }
                    },
                    JsonValue::Quotient(n, d) => {
                        proof {
                            if *d == -1 {
                                lemma_div_minus_one(*n as int);
                            }
                        }
                        assert(arg == Json::Quotient(*n as int, *d as int));
                        if *d == 0 || (*n == i64::MIN && *d == -1) {
                            assert(exponent_of(arg) is None);
                            return Err(ErrorInfo::new(ErrorKind::UsageError, "usage: pow(Primitive<Int || Float>)", interval));
                        }
                        proof {
                            if *d != -1 {
                                lemma_div_fits(*n as int, *d as int);
                            } else {
                                lemma_div_minus_one(*n as int);
                            }
                        }
                        let q = *n / *d;
                        assert(arg == Json::Quotient(*n as int, *d as int));
                        assert(q as int == trunc_div(*n as int, *d as int));
                        if 0 <= q && q <= 4294967295 {
                            q as u32
                        } else {
                            return Err(ErrorInfo::new(ErrorKind::UsageError, "usage: pow(Primitive<Int || Float>)", interval));
                        }
                    },
                    _ => {
                        return Err(ErrorInfo::new(ErrorKind::UsageError, "usage: pow(Primitive<Int || Float>)", interval));
                    },
                };
                assert(exponent_of(arg) == Some(e as nat));
                match checked_pow(a, e) {
                    Some(v) => PrimitiveInt::get_literal("int", v, interval),
                    None => {
                        return Err(ErrorInfo::new(ErrorKind::Overflow, "integer overflow in pow", interval));
                    },
                }
            },
        };
        Ok((lit, right))
    }
}

} // verus!

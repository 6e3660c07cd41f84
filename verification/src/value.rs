use vstd::prelude::*;

use crate::heap::{Gc, ListObj, StringObj};
use crate::text::{push_decimal_i64, push_decimal_u64, spec_decimal_i64, spec_decimal_u64, text};


verus! {

/// Runtime value in the machine.
///
/// A float is carried by its IEEE-754 binary64 bit pattern, which is what the
/// bytecode and snapshot formats store; arithmetic on floats is done by the
/// host (see `vm::HostCall`).
#[derive(Debug, Clone, Copy, PartialEq)]
pub enum Value {
    Int(i64),
    /// IEEE-754 binary64 bit pattern.
    Float(u64),
    Bool(bool),
    Null,
    /// Heap-allocated UTF-8 string (identity semantics for equality).
    String(Gc<StringObj>),
    /// Heap-allocated dynamic list (identity semantics for equality).
    List(Gc<ListObj>),
}

/// Error returned when an operation receives incompatible operand types.
#[derive(Debug, Clone, Copy, PartialEq)]
pub struct TypeError {
    pub op: &'static str,
    pub lhs: Value,
    pub rhs: Value,
}

/// Both operands are floats: the operation is carried out by the host.
pub open spec fn both_float(a: Value, b: Value) -> bool {
    a is Float && b is Float
}

/// The machine's integer arithmetic operations.
#[derive(Debug, Clone, Copy, PartialEq)]
pub enum ArithOp {
    Add,
    Sub,
    Mul,
    Div,
    Mod,
}

/// The machine's ordering comparisons.
#[derive(Debug, Clone, Copy, PartialEq)]
pub enum OrderOp {
    Lt,
    Lte,
    Gt,
    Gte,
}

/// The operation's name as it appears in a `TypeError`.
pub open spec fn arith_name(op: ArithOp) -> &'static str {
    match op {
        ArithOp::Add => "add",
        ArithOp::Sub => "sub",
        ArithOp::Mul => "mul",
        ArithOp::Div => "div",
        ArithOp::Mod => "mod",
    }
}

pub open spec fn order_name(op: OrderOp) -> &'static str {
    match op {
        OrderOp::Lt => "lt",
        OrderOp::Lte => "lte",
        OrderOp::Gt => "gt",
        OrderOp::Gte => "gte",
    }
}

/// Integer division truncating toward zero, as Rust's `/` does.
pub open spec fn trunc_div(x: int, d: int) -> int {
    if x == 0 {
        0
    } else if x > 0 && d > 0 {
        x / d
    } else if x < 0 && d < 0 {
        (-x) / (-d)
    } else if x < 0 {
        -((-x) / d)
    } else {
        -(x / (-d))
    }
}

/// Remainder with the sign of the dividend, as Rust's `%` does.
pub open spec fn trunc_rem(x: int, d: int) -> int {
    if x == 0 {
        0
    } else if x > 0 && d > 0 {
        x % d
    } else if x < 0 && d < 0 {
        -((-x) % (-d))
    } else if x < 0 {
        -((-x) % d)
    } else {
        x % (-d)
    }
}

proof fn lemma_nonneg_div_bound(x: int, d: int)
    by (nonlinear_arith)
    requires
        x >= 0,
        d >= 1,
    ensures
        0 <= x / d <= x,
        0 <= x % d < d,
{
}

proof fn lemma_trunc_div_bounds(x: int, d: int)
    requires
        i64::MIN <= x <= i64::MAX,
        i64::MIN <= d <= i64::MAX,
        d != 0,
        !(x == i64::MIN && d == -1),
    ensures
        i64::MIN <= trunc_div(x, d) <= i64::MAX,
{
    if x > 0 && d > 0 {
        lemma_nonneg_div_bound(x, d);
    } else if x < 0 && d < 0 {
        lemma_nonneg_div_bound(-x, -d);
        if d == -1 {
            assert((-x) / 1 == -x);
        } else {
            assert((-x) / (-d) <= (-x) / 2) by (nonlinear_arith)
                requires
                    -x >= 0,
                    -d >= 2,
            ;
        }
    } else if x < 0 {
        lemma_nonneg_div_bound(-x, d);
    } else if x > 0 {
        lemma_nonneg_div_bound(x, -d);
    }
}

proof fn lemma_trunc_rem_bounds(x: int, d: int)
    requires
        i64::MIN <= x <= i64::MAX,
        i64::MIN <= d <= i64::MAX,
        d != 0,
    ensures
        i64::MIN <= trunc_rem(x, d) <= i64::MAX,
{
    if x > 0 && d > 0 {
        lemma_nonneg_div_bound(x, d);
    } else if x < 0 && d < 0 {
        lemma_nonneg_div_bound(-x, -d);
    } else if x < 0 {
        lemma_nonneg_div_bound(-x, d);
    } else if x > 0 {
        lemma_nonneg_div_bound(x, -d);
    }
}

/// The exact integer result of an arithmetic operation (before range checks).
pub open spec fn int_arith(op: ArithOp, l: int, r: int) -> int {
    match op {
        ArithOp::Add => l + r,
        ArithOp::Sub => l - r,
        ArithOp::Mul => l * r,
        ArithOp::Div => trunc_div(l, r),
        ArithOp::Mod => trunc_rem(l, r),
    }
}

/// Integer operation `op` on `l`, `r` is defined (no overflow, no division
/// by zero); Rust panics otherwise.
pub open spec fn int_arith_defined(op: ArithOp, l: i64, r: i64) -> bool {
    match op {
        ArithOp::Div | ArithOp::Mod => r != 0 && !(l == i64::MIN && r == -1),
        _ => i64::MIN <= int_arith(op, l as int, r as int) <= i64::MAX,
    }
}

pub open spec fn int_order(op: OrderOp, l: int, r: int) -> bool {
    match op {
        OrderOp::Lt => l < r,
        OrderOp::Lte => l <= r,
        OrderOp::Gt => l > r,
        OrderOp::Gte => l >= r,
    }
}

/// The operation can be carried out by the library (it is neither a float
/// operation nor an integer operation Rust would panic on).
pub open spec fn arith_defined(op: ArithOp, a: Value, b: Value) -> bool {
    &&& !both_float(a, b)
    &&& match (a, b) {
        (Value::Int(l), Value::Int(r)) => int_arith_defined(op, l, r),
        _ => true,
    }
}

/// What an arithmetic operation returns.
pub open spec fn spec_arith(op: ArithOp, a: Value, b: Value) -> Result<Value, TypeError> {
    match (a, b) {
        (Value::Int(l), Value::Int(r)) => Ok(Value::Int(int_arith(op, l as int, r as int) as i64)),
        _ => Err(TypeError { op: arith_name(op), lhs: a, rhs: b }),
    }
}

/// What an ordering comparison returns.
pub open spec fn spec_order(op: OrderOp, a: Value, b: Value) -> Result<Value, TypeError> {
    match (a, b) {
        (Value::Int(l), Value::Int(r)) => Ok(Value::Bool(int_order(op, l as int, r as int))),
        _ => Err(TypeError { op: order_name(op), lhs: a, rhs: b }),
    }
}

/// What the equality operation returns (heap values compare by identity).
pub open spec fn spec_eq(a: Value, b: Value) -> Result<Value, TypeError> {
    match (a, b) {
        (Value::Int(l), Value::Int(r)) => Ok(Value::Bool(l == r)),
        (Value::Bool(l), Value::Bool(r)) => Ok(Value::Bool(l == r)),
        (Value::Null, Value::Null) => Ok(Value::Bool(true)),
        (Value::String(l), Value::String(r)) => Ok(Value::Bool(l.index == r.index)),
        (Value::List(l), Value::List(r)) => Ok(Value::Bool(l.index == r.index)),
        _ => Err(TypeError { op: "eq", lhs: a, rhs: b }),
    }
}

/// Truthiness: non-zero numbers, `true` and every heap reference.
pub open spec fn spec_truthy(v: Value) -> bool {
    match v {
        Value::Int(n) => n != 0,
        // Every pattern other than +0.0 and -0.0 (NaN included) is non-zero.
        Value::Float(bits) => bits & 0x7FFF_FFFF_FFFF_FFFFu64 != 0,
        Value::Bool(b) => b,
        Value::String(_) | Value::List(_) => true,
        Value::Null => false,
    }
}

impl Value {
    pub fn is_int(&self) -> (b: bool)
        ensures
            b == (*self is Int),
    {
        matches!(self, Value::Int(_))
    }

    pub fn is_float(&self) -> (b: bool)
        ensures
            b == (*self is Float),
    {
        matches!(self, Value::Float(_))
    }

    pub fn is_bool(&self) -> (b: bool)
        ensures
            b == (*self is Bool),
    {
        matches!(self, Value::Bool(_))
    }

    pub fn is_null(&self) -> (b: bool)
        ensures
            b == (*self is Null),
    {
        matches!(self, Value::Null)
    }

    pub fn is_string(&self) -> (b: bool)
        ensures
            b == (*self is String),
    {
        matches!(self, Value::String(_))
    }

    pub fn is_list(&self) -> (b: bool)
        ensures
            b == (*self is List),
    {
        matches!(self, Value::List(_))
    }

    pub fn as_int(&self) -> (r: Option<i64>)
        ensures
            r == (match *self {
                Value::Int(v) => Some(v),
                _ => None,
            }),
    {
        match self {
            Value::Int(v) => Some(*v),
            _ => None,
        }
    }

    /// The float's bit pattern, if the value is a float.
    pub fn as_float(&self) -> (r: Option<u64>)
        ensures
            r == (match *self {
                Value::Float(v) => Some(v),
                _ => None,
            }),
    {
        match self {
            Value::Float(v) => Some(*v),
            _ => None,
        }
    }

    pub fn as_bool(&self) -> (r: Option<bool>)
        ensures
            r == (match *self {
                Value::Bool(v) => Some(v),
                _ => None,
            }),
    {
        match self {
            Value::Bool(v) => Some(*v),
            _ => None,
        }
    }

    pub fn as_string(&self) -> (r: Option<Gc<StringObj>>)
        ensures
            r == (match *self {
                Value::String(v) => Some(v),
                _ => None,
            }),
    {
        match self {
            Value::String(v) => Some(*v),
            _ => None,
        }
    }

    pub fn as_list(&self) -> (r: Option<Gc<ListObj>>)
        ensures
            r == (match *self {
                Value::List(v) => Some(v),
                _ => None,
            }),
    {
        match self {
            Value::List(v) => Some(*v),
            _ => None,
        }
    }

    /// Integer arithmetic; any other pair of types is a type error.
    pub fn arith(&self, op: ArithOp, rhs: &Self) -> (r: Result<Self, TypeError>)
        requires
            arith_defined(op, *self, *rhs),
        ensures
            r == spec_arith(op, *self, *rhs),
    {
        match (self, rhs) {
            (Value::Int(l), Value::Int(r)) => {
                let v = match op {
                    ArithOp::Add => *l + *r,
                    ArithOp::Sub => *l - *r,
                    ArithOp::Mul => *l * *r,
                    ArithOp::Div => {
                        proof {
                            lemma_trunc_div_bounds(*l as int, *r as int);
                        }
                        match l.checked_div(*r) {
                            Some(q) => q,
                            None => 0,
                        }
                    },
                    ArithOp::Mod => {
                        proof {
                            lemma_trunc_rem_bounds(*l as int, *r as int);
                        }
                        match l.checked_rem(*r) {
                            Some(m) => m,
                            None => 0,
                        }
                    },
                };
                Ok(Value::Int(v))
            },
            _ => {
                let name = match op {
                    ArithOp::Add => "add",
                    ArithOp::Sub => "sub",
                    ArithOp::Mul => "mul",
                    ArithOp::Div => "div",
                    ArithOp::Mod => "mod",
                };
                Err(TypeError { op: name, lhs: *self, rhs: *rhs })
            },
        }
    }

    pub fn add(&self, rhs: &Self) -> (r: Result<Self, TypeError>)
        requires
            arith_defined(ArithOp::Add, *self, *rhs),
        ensures
            r == spec_arith(ArithOp::Add, *self, *rhs),
    {
        self.arith(ArithOp::Add, rhs)
    }

    pub fn sub(&self, rhs: &Self) -> (r: Result<Self, TypeError>)
        requires
            arith_defined(ArithOp::Sub, *self, *rhs),
        ensures
            r == spec_arith(ArithOp::Sub, *self, *rhs),
    {
        self.arith(ArithOp::Sub, rhs)
    }

    pub fn mul(&self, rhs: &Self) -> (r: Result<Self, TypeError>)
        requires
            arith_defined(ArithOp::Mul, *self, *rhs),
        ensures
            r == spec_arith(ArithOp::Mul, *self, *rhs),
    {
        self.arith(ArithOp::Mul, rhs)
    }

    pub fn div(&self, rhs: &Self) -> (r: Result<Self, TypeError>)
        requires
            arith_defined(ArithOp::Div, *self, *rhs),
        ensures
            r == spec_arith(ArithOp::Div, *self, *rhs),
    {
        self.arith(ArithOp::Div, rhs)
    }

    pub fn modulo(&self, rhs: &Self) -> (r: Result<Self, TypeError>)
        requires
            arith_defined(ArithOp::Mod, *self, *rhs),
        ensures
            r == spec_arith(ArithOp::Mod, *self, *rhs),
    {
        self.arith(ArithOp::Mod, rhs)
    }

    /// Integer negation; a non-number is a type error.
    pub fn neg(&self) -> (r: Result<Self, TypeError>)
        requires
            !(*self is Float),
            *self matches Value::Int(v) ==> v != i64::MIN,
        ensures
            r == (match *self {
                Value::Int(v) => Ok(Value::Int((-v) as i64)),
                other => Err(TypeError { op: "neg", lhs: other, rhs: Value::Null }),
            }),
    {
        match self {
            Value::Int(v) => Ok(Value::Int(-*v)),
            other => Err(TypeError { op: "neg", lhs: *other, rhs: Value::Null }),
        }
    }

    /// Equality of like-typed values; heap values compare by handle.
    pub fn eq(&self, rhs: &Self) -> (r: Result<Self, TypeError>)
        requires
            !both_float(*self, *rhs),
        ensures
            r == spec_eq(*self, *rhs),
    {
        match (self, rhs) {
            (Value::Int(l), Value::Int(r)) => Ok(Value::Bool(*l == *r)),
            (Value::Bool(l), Value::Bool(r)) => Ok(Value::Bool(*l == *r)),
            (Value::Null, Value::Null) => Ok(Value::Bool(true)),
            (Value::String(l), Value::String(r)) => Ok(Value::Bool(l.index == r.index)),
            (Value::List(l), Value::List(r)) => Ok(Value::Bool(l.index == r.index)),
            _ => Err(TypeError { op: "eq", lhs: *self, rhs: *rhs }),
        }
    }

    /// The negation of `eq`; its type errors are those of `eq`.
    pub fn neq(&self, rhs: &Self) -> (r: Result<Self, TypeError>)
        requires
            !both_float(*self, *rhs),
        ensures
            r == (match spec_eq(*self, *rhs) {
                Ok(Value::Bool(b)) => Ok(Value::Bool(!b)),
                Ok(_) => Ok(Value::Bool(false)),
                Err(e) => Err(e),
            }),
    {
        match self.eq(rhs) {
            Ok(v) => {
                let b = match v.as_bool() {
                    Some(b) => b,
                    None => true,
                };
                Ok(Value::Bool(!b))
            },
            Err(e) => Err(e),
        }
    }

    /// Integer ordering comparison; any other pair of types is a type error.
    pub fn compare(&self, op: OrderOp, rhs: &Self) -> (r: Result<Self, TypeError>)
        requires
            !both_float(*self, *rhs),
        ensures
            r == spec_order(op, *self, *rhs),
    {
        match (self, rhs) {
            (Value::Int(l), Value::Int(r)) => {
                let b = match op {
                    OrderOp::Lt => *l < *r,
                    OrderOp::Lte => *l <= *r,
                    OrderOp::Gt => *l > *r,
                    OrderOp::Gte => *l >= *r,
                };
                Ok(Value::Bool(b))
            },
            _ => {
                let name = match op {
                    OrderOp::Lt => "lt",
                    OrderOp::Lte => "lte",
                    OrderOp::Gt => "gt",
                    OrderOp::Gte => "gte",
                };
                Err(TypeError { op: name, lhs: *self, rhs: *rhs })
            },
        }
    }

    pub fn lt(&self, rhs: &Self) -> (r: Result<Self, TypeError>)
        requires
            !both_float(*self, *rhs),
        ensures
            r == spec_order(OrderOp::Lt, *self, *rhs),
    {
        self.compare(OrderOp::Lt, rhs)
    }

    pub fn lte(&self, rhs: &Self) -> (r: Result<Self, TypeError>)
        requires
            !both_float(*self, *rhs),
        ensures
            r == spec_order(OrderOp::Lte, *self, *rhs),
    {
        self.compare(OrderOp::Lte, rhs)
    }

    pub fn gt(&self, rhs: &Self) -> (r: Result<Self, TypeError>)
        requires
            !both_float(*self, *rhs),
        ensures
            r == spec_order(OrderOp::Gt, *self, *rhs),
    {
        self.compare(OrderOp::Gt, rhs)
    }

    pub fn gte(&self, rhs: &Self) -> (r: Result<Self, TypeError>)
        requires
            !both_float(*self, *rhs),
        ensures
            r == spec_order(OrderOp::Gte, *self, *rhs),
    {
        self.compare(OrderOp::Gte, rhs)
    }

    /// Logical and of two booleans.
    pub fn and(&self, rhs: &Self) -> (r: Result<Self, TypeError>)
        ensures
            r == (match (*self, *rhs) {
                (Value::Bool(l), Value::Bool(r)) => Ok(Value::Bool(l && r)),
                _ => Err(TypeError { op: "and", lhs: *self, rhs: *rhs }),
            }),
    {
        match (self, rhs) {
            (Value::Bool(l), Value::Bool(r)) => Ok(Value::Bool(*l && *r)),
            _ => Err(TypeError { op: "and", lhs: *self, rhs: *rhs }),
        }
    }

    /// Logical or of two booleans.
    pub fn or(&self, rhs: &Self) -> (r: Result<Self, TypeError>)
        ensures
            r == (match (*self, *rhs) {
                (Value::Bool(l), Value::Bool(r)) => Ok(Value::Bool(l || r)),
                _ => Err(TypeError { op: "or", lhs: *self, rhs: *rhs }),
            }),
    {
        match (self, rhs) {
            (Value::Bool(l), Value::Bool(r)) => Ok(Value::Bool(*l || *r)),
            _ => Err(TypeError { op: "or", lhs: *self, rhs: *rhs }),
        }
    }

    /// Logical not of a boolean.
    pub fn not(&self) -> (r: Result<Self, TypeError>)
        ensures
            r == (match *self {
                Value::Bool(v) => Ok(Value::Bool(!v)),
                other => Err(TypeError { op: "not", lhs: other, rhs: Value::Null }),
            }),
    {
        match self {
            Value::Bool(v) => Ok(Value::Bool(!*v)),
            other => Err(TypeError { op: "not", lhs: *other, rhs: Value::Null }),
        }
    }

    /// Truthiness: non-zero numbers, `true`, and every heap reference.
    pub fn is_truthy(&self) -> (b: bool)
        ensures
            b == spec_truthy(*self),
    {
        match self {
            Value::Int(v) => *v != 0,
            Value::Float(bits) => *bits & 0x7FFF_FFFF_FFFF_FFFFu64 != 0,
            Value::Bool(v) => *v,
            Value::String(_) | Value::List(_) => true,
            Value::Null => false,
        }
    }
}

/// The text of a value; a float's text is the host's business.
pub open spec fn spec_display(v: Value) -> Seq<char> {
    match v {
        Value::Int(i) => spec_decimal_i64(i),
        Value::Float(_) => Seq::empty(),
        Value::Bool(b) => if b {
            "true"@
        } else {
            "false"@
        },
        Value::Null => "null"@,
        Value::String(gc) => "<string@"@ + spec_decimal_u64(gc.index as u64) + ">"@,
        Value::List(gc) => "<list@"@ + spec_decimal_u64(gc.index as u64) + ">"@,
    }
}

impl Value {
    /// The value's text: the number, `true`/`false`, `null`, or the kind and
    /// slot of a heap reference. Floats are formatted by the host.
    pub fn display_string(&self) -> (s: String)
        requires
            !(*self is Float),
        ensures
            s@ == spec_display(*self),
    {
        match self {
            Value::Int(i) => {
                let mut s = String::new();
                push_decimal_i64(&mut s, *i);
                assert(s@ =~= spec_decimal_i64(*i));
                s
            },
            Value::Float(_) => String::new(),
            Value::Bool(b) => if *b {
                text("true")
            } else {
                text("false")
            },
            Value::Null => text("null"),
            Value::String(gc) => {
                let mut s = text("<string@");
                push_decimal_u64(&mut s, gc.index as u64);
                s.append(">");
                s
            },
            Value::List(gc) => {
                let mut s = text("<list@");
                push_decimal_u64(&mut s, gc.index as u64);
                s.append(">");
                s
            },
        }
    }
}

impl TypeError {
    /// `type error: cannot <op> <lhs> and <rhs>`.
    pub fn display_string(&self) -> (s: String)
        requires
            !(self.lhs is Float),
            !(self.rhs is Float),
        ensures
            s@ == "type error: cannot "@ + self.op@ + " "@ + spec_display(self.lhs) + " and "@ + spec_display(
                self.rhs,
            ),
    {
        let mut s = text("type error: cannot ");
        s.append(self.op);
        s.append(" ");
        let l = self.lhs.display_string();
        s.append(l.as_str());
        s.append(" and ");
        let r = self.rhs.display_string();
        s.append(r.as_str());
        s
    }
}

} // verus!

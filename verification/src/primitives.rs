//! The primitive-function catalog: the behavior of every built-in operation
//! over an already-evaluated argument list, first as a mathematical model
//! (`spec_primitive`), then as executable code (`system_functions`) proved to
//! follow it.
//!
//! The 64-bit integer operations wrap on overflow; division and remainder by
//! zero yield the declared `DivByZero` exception, and the one remaining
//! overflow (the most negative value divided by minus one) wraps as well.

use vstd::prelude::*;

use crate::encoding::{
    exn_to_list_model,
    lemma_vals_model_index,
    lemma_vals_model_len,
    lemma_vals_size_element,
    val_size,
    vals_size,
    Evaluation,
    Exception,
    ExceptionType,
    ExnModel,
    ListEval,
    ValModel,
};
use crate::floats::{
    float_add,
    float_div,
    float_eq,
    float_gt,
    float_lt,
    float_mul,
    float_of_int,
    float_parse,
    float_sub,
    float_trunc,
};
use crate::numbers::{dec_digits, parse_int};
use crate::render::render_val;

verus! {

// ---------------------------------------------------------------------------
// Exception values
// ---------------------------------------------------------------------------

/// An exception raised by the interpreter itself: the message as payload and
/// the offending identifier as the first stack entry.
pub open spec fn exn_val(flavor: ExceptionType, id: Seq<char>, msg: Seq<char>) -> ValModel {
    ValModel::Exception(
        ExnModel { flavor, payload: Box::new(ValModel::Text(msg)), stack: seq![id] },
    )
}

/// The arity-mismatch exception, naming the expected and actual counts.
pub open spec fn arg_error_val(id: Seq<char>, expected: int, got: int) -> ValModel {
    exn_val(
        ExceptionType::ArgError,
        id,
        "expected argument list of length "@ + dec_digits(expected) + " but got "@ + dec_digits(
            got,
        ),
    )
}

pub open spec fn bool_val(b: bool) -> ValModel {
    if b {
        ValModel::True
    } else {
        ValModel::False
    }
}

// ---------------------------------------------------------------------------
// Structural equality (the `=` primitive)
// ---------------------------------------------------------------------------

/// Structural equality of two values: mismatched variants are unequal rather
/// than an error, lists compare element-wise, floats compare by IEEE
/// equality, and functions and exceptions equal nothing.
pub open spec fn val_equal(a: ValModel, b: ValModel) -> bool
    decreases val_size(a), 0int,
{
    match a {
        ValModel::True => b is True,
        ValModel::False => b is False,
        ValModel::Integer(x) => b matches ValModel::Integer(y) && x == y,
        ValModel::Float(x) => b matches ValModel::Float(y) && float_eq(x, y),
        ValModel::Text(s) => b matches ValModel::Text(t) && s == t,
        ValModel::List(xs) => b matches ValModel::List(ys) && vals_equal_seq(xs, ys),
        _ => false,
    }
}

pub open spec fn vals_equal_seq(xs: Seq<ValModel>, ys: Seq<ValModel>) -> bool
    decreases vals_size(xs), 1int,
{
    if xs.len() != ys.len() {
        false
    } else if xs.len() == 0 {
        true
    } else {
        proof {
            lemma_vals_size_element(xs, 0);
        }
        val_equal(xs[0], ys[0]) && vals_equal_seq(xs.drop_first(), ys.drop_first())
    }
}

// ---------------------------------------------------------------------------
// Truncated 64-bit division and remainder
// ---------------------------------------------------------------------------

/// Division truncated toward zero, as the host's integers divide.
pub open spec fn div_trunc(x: int, d: int) -> int {
    if x == 0 {
        0
    } else if x > 0 && d > 0 {
        x / d
    } else if x < 0 && d < 0 {
        (x * -1) / (d * -1)
    } else if x < 0 {
        ((x * -1) / d) * -1
    } else {
        (x / (d * -1)) * -1
    }
}

/// Remainder with the sign of the dividend, as the host's integers take it.
pub open spec fn rem_trunc(x: int, d: int) -> int {
    if x == 0 {
        0
    } else if x > 0 && d > 0 {
        x % d
    } else if x < 0 && d < 0 {
        ((x * -1) % (d * -1)) * -1
    } else if x < 0 {
        ((x * -1) % d) * -1
    } else {
        x % (d * -1)
    }
}

// ---------------------------------------------------------------------------
// Exception poisoning
// ---------------------------------------------------------------------------

/// Whether any argument is an exception value.
pub open spec fn has_exception(vals: Seq<ValModel>) -> bool {
    exists|i: int| 0 <= i < vals.len() && vals[i] is Exception
}

/// The position of the first exception among the arguments.
pub open spec fn first_exn_index(vals: Seq<ValModel>) -> int
    decreases vals.len(),
{
    if vals.len() == 0 {
        0
    } else if vals[0] is Exception {
        0
    } else {
        1 + first_exn_index(vals.drop_first())
    }
}

pub proof fn lemma_first_exn_index(vals: Seq<ValModel>, i: int)
    requires
        0 <= i < vals.len(),
        vals[i] is Exception,
        forall|j: int| 0 <= j < i ==> !(#[trigger] vals[j] is Exception),
    ensures
        first_exn_index(vals) == i,
    decreases vals.len(),
{
    if i > 0 {
        lemma_first_exn_index(vals.drop_first(), i - 1);
        assert(vals.drop_first()[i - 1] == vals[i]);
        assert(forall|j: int| 0 <= j < i - 1 ==> vals.drop_first()[j] == vals[j + 1]);
    }
}

// ---------------------------------------------------------------------------
// The dispatch model
// ---------------------------------------------------------------------------

/// The result of one primitive call: its value and the output lines it
/// emitted (only `>>` emits any).
pub struct PrimOut {
    pub value: ValModel,
    pub out: Seq<Seq<char>>,
}

pub open spec fn pure_out(v: ValModel) -> PrimOut {
    PrimOut { value: v, out: Seq::empty() }
}

/// What the primitive dispatcher returns for the given name over the given
/// already-evaluated arguments.  For every primitive but `?` and `catch`, an
/// exception among the arguments is returned unchanged, before anything else
/// ("exception poisons the call").
pub open spec fn spec_primitive(id: Seq<char>, vals: Seq<ValModel>) -> PrimOut {
    if id != "?"@ && id != "catch"@ && has_exception(vals) {
        pure_out(vals[first_exn_index(vals)])
    } else {
        spec_dispatch(id, vals)
    }
}

pub open spec fn type_error(id: Seq<char>, msg: Seq<char>) -> PrimOut {
    pure_out(exn_val(ExceptionType::TypeError, id, msg))
}

/// The primitive catalog proper, one case per built-in name.
pub open spec fn spec_dispatch(id: Seq<char>, vals: Seq<ValModel>) -> PrimOut {
    if id == "int"@ {
        spec_prim_int(id, vals)
    } else if id == "float"@ {
        spec_prim_float(id, vals)
    } else if id == "string"@ {
        spec_prim_string(id, vals)
    } else if id == ">>"@ {
        spec_prim_print(id, vals)
    } else if id == "+"@ {
        spec_prim_add(id, vals)
    } else if id == "-"@ {
        spec_prim_sub(id, vals)
    } else if id == "*"@ {
        spec_prim_mul(id, vals)
    } else if id == "/"@ {
        spec_prim_div(id, vals)
    } else if id == "%"@ {
        spec_prim_rem(id, vals)
    } else if id == "!"@ {
        spec_prim_not(id, vals)
    } else if id == "&"@ {
        spec_prim_and(id, vals)
    } else if id == "|"@ {
        spec_prim_or(id, vals)
    } else if id == "?"@ {
        spec_prim_cond(id, vals)
    } else if id == "="@ {
        spec_prim_eq(id, vals)
    } else if id == ">"@ {
        spec_prim_gt(id, vals)
    } else if id == "<"@ {
        spec_prim_lt(id, vals)
    } else if id == "substr"@ {
        spec_prim_substr(id, vals)
    } else if id == "strlen"@ {
        spec_prim_strlen(id, vals)
    } else if id == "car"@ {
        spec_prim_car(id, vals)
    } else if id == "cdr"@ {
        spec_prim_cdr(id, vals)
    } else if id == "catch"@ {
        spec_prim_catch(id, vals)
    } else if id == "raise"@ {
        spec_prim_raise(id, vals)
    } else if id == "~"@ {
        spec_prim_early_return(id, vals)
    } else {
        spec_prim_undef(id, vals)
    }
}

pub open spec fn spec_prim_int(id: Seq<char>, vals: Seq<ValModel>) -> PrimOut {
    let n = vals.len() as int;
        if n != 1 {
            pure_out(arg_error_val(id, 1, n))
        } else {
            match vals[0] {
                ValModel::Float(b) => pure_out(ValModel::Integer(float_trunc(b))),
                ValModel::Text(s) => match parse_int(s) {
                    Some(x) => pure_out(ValModel::Integer(x)),
                    None => pure_out(
                        exn_val(ExceptionType::ParseError, id, "unable to parse string: "@ + s),
                    ),
                },
                _ => type_error(id, "float or string argument expected"@),
            }
        }
    
}

pub open spec fn spec_prim_float(id: Seq<char>, vals: Seq<ValModel>) -> PrimOut {
    let n = vals.len() as int;
        if n != 1 {
            pure_out(arg_error_val(id, 1, n))
        } else {
            match vals[0] {
                ValModel::Integer(x) => pure_out(ValModel::Float(float_of_int(x))),
                ValModel::Text(s) => match float_parse(s) {
                    Some(b) => pure_out(ValModel::Float(b)),
                    None => pure_out(
                        exn_val(ExceptionType::ParseError, id, "unable to parse string: "@ + s),
                    ),
                },
                _ => type_error(id, "int or string argument expected"@),
            }
        }
    
}

pub open spec fn spec_prim_string(id: Seq<char>, vals: Seq<ValModel>) -> PrimOut {
    let n = vals.len() as int;
        if n != 1 {
            pure_out(arg_error_val(id, 1, n))
        } else {
            pure_out(ValModel::Text(render_val(vals[0])))
        }
    
}

pub open spec fn spec_prim_print(id: Seq<char>, vals: Seq<ValModel>) -> PrimOut {
    let n = vals.len() as int;
        if n != 1 {
            pure_out(arg_error_val(id, 1, n))
        } else {
            match vals[0] {
                ValModel::Text(s) => PrimOut { value: ValModel::False, out: seq![s] },
                _ => type_error(id, "string argument expected"@),
            }
        }
    
}

pub open spec fn spec_prim_add(id: Seq<char>, vals: Seq<ValModel>) -> PrimOut {
    let n = vals.len() as int;
        if n != 2 {
            pure_out(arg_error_val(id, 2, n))
        } else {
            match vals[0] {
                ValModel::Integer(x) => match vals[1] {
                    ValModel::Integer(y) => pure_out(ValModel::Integer(x.wrapping_add(y))),
                    ValModel::Float(b) => pure_out(ValModel::Float(float_add(float_of_int(x), b))),
                    _ => pure_out(
                        exn_val(ExceptionType::TypeMismatch, id, "mismatched argument types"@),
                    ),
                },
                ValModel::Float(a) => match vals[1] {
                    ValModel::Integer(y) => pure_out(ValModel::Float(float_add(a, float_of_int(y)))),
                    ValModel::Float(b) => pure_out(ValModel::Float(float_add(a, b))),
                    _ => pure_out(
                        exn_val(ExceptionType::TypeMismatch, id, "mismatched argument types"@),
                    ),
                },
                ValModel::Text(s) => match vals[1] {
                    ValModel::Text(t) => pure_out(ValModel::Text(s + t)),
                    _ => pure_out(
                        exn_val(ExceptionType::TypeMismatch, id, "mismatched argument types"@),
                    ),
                },
                ValModel::List(xs) => match vals[1] {
                    ValModel::List(ys) => pure_out(ValModel::List(xs + ys)),
                    _ => pure_out(
                        exn_val(ExceptionType::TypeMismatch, id, "can only append list to list"@),
                    ),
                },
                _ => type_error(id, "numbers, strings, or list arguments expected"@),
            }
        }
    
}

pub open spec fn spec_prim_sub(id: Seq<char>, vals: Seq<ValModel>) -> PrimOut {
    let n = vals.len() as int;
        if n != 2 {
            pure_out(arg_error_val(id, 2, n))
        } else {
            match vals[0] {
                ValModel::Integer(x) => match vals[1] {
                    ValModel::Integer(y) => pure_out(ValModel::Integer(x.wrapping_sub(y))),
                    ValModel::Float(b) => pure_out(ValModel::Float(float_sub(float_of_int(x), b))),
                    _ => type_error(id, "numeric arguments expected"@),
                },
                ValModel::Float(a) => match vals[1] {
                    ValModel::Integer(y) => pure_out(ValModel::Float(float_sub(a, float_of_int(y)))),
                    ValModel::Float(b) => pure_out(ValModel::Float(float_sub(a, b))),
                    _ => type_error(id, "numeric arguments expected"@),
                },
                _ => type_error(id, "numeric arguments expected"@),
            }
        }
    
}

pub open spec fn spec_prim_mul(id: Seq<char>, vals: Seq<ValModel>) -> PrimOut {
    let n = vals.len() as int;
        if n != 2 {
            pure_out(arg_error_val(id, 2, n))
        } else {
            match vals[0] {
                ValModel::Integer(x) => match vals[1] {
                    ValModel::Integer(y) => pure_out(ValModel::Integer(x.wrapping_mul(y))),
                    ValModel::Float(b) => pure_out(ValModel::Float(float_mul(float_of_int(x), b))),
                    _ => type_error(id, "numeric arguments expected"@),
                },
                ValModel::Float(a) => match vals[1] {
                    ValModel::Integer(y) => pure_out(ValModel::Float(float_mul(a, float_of_int(y)))),
                    ValModel::Float(b) => pure_out(ValModel::Float(float_mul(a, b))),
                    _ => type_error(id, "numeric arguments expected"@),
                },
                _ => type_error(id, "numeric arguments expected"@),
            }
        }
    
}

pub open spec fn spec_prim_div(id: Seq<char>, vals: Seq<ValModel>) -> PrimOut {
    let n = vals.len() as int;
        if n != 2 {
            pure_out(arg_error_val(id, 2, n))
        } else {
            match vals[0] {
                ValModel::Integer(x) => match vals[1] {
                    ValModel::Integer(y) => if y == 0 {
                        pure_out(exn_val(ExceptionType::DivByZero, id, "division by zero"@))
                    } else if x == i64::MIN && y == -1 {
                        pure_out(ValModel::Integer(i64::MIN))
                    } else {
                        pure_out(ValModel::Integer(div_trunc(x as int, y as int) as i64))
                    },
                    ValModel::Float(b) => pure_out(ValModel::Float(float_div(float_of_int(x), b))),
                    _ => type_error(id, "numeric arguments expected"@),
                },
                ValModel::Float(a) => match vals[1] {
                    ValModel::Integer(y) => pure_out(ValModel::Float(float_div(a, float_of_int(y)))),
                    ValModel::Float(b) => pure_out(ValModel::Float(float_div(a, b))),
                    _ => type_error(id, "numeric arguments expected"@),
                },
                _ => type_error(id, "numeric arguments expected"@),
            }
        }
    
}

pub open spec fn spec_prim_rem(id: Seq<char>, vals: Seq<ValModel>) -> PrimOut {
    let n = vals.len() as int;
        if n != 2 {
            pure_out(arg_error_val(id, 2, n))
        } else {
            match vals[0] {
                ValModel::Integer(x) => match vals[1] {
                    ValModel::Integer(y) => if y == 0 {
                        pure_out(exn_val(ExceptionType::DivByZero, id, "division by zero"@))
                    } else if x == i64::MIN && y == -1 {
                        pure_out(ValModel::Integer(0))
                    } else {
                        pure_out(ValModel::Integer(rem_trunc(x as int, y as int) as i64))
                    },
                    _ => type_error(id, "integer arguments expected"@),
                },
                _ => type_error(id, "integer arguments expected"@),
            }
        }
    
}

pub open spec fn spec_prim_not(id: Seq<char>, vals: Seq<ValModel>) -> PrimOut {
    let n = vals.len() as int;
        if n != 1 {
            pure_out(arg_error_val(id, 1, n))
        } else {
            match vals[0] {
                ValModel::True => pure_out(ValModel::False),
                ValModel::False => pure_out(ValModel::True),
                _ => type_error(id, "boolean argument expected"@),
            }
        }
    
}

pub open spec fn spec_prim_and(id: Seq<char>, vals: Seq<ValModel>) -> PrimOut {
    let n = vals.len() as int;
        if n != 2 {
            pure_out(arg_error_val(id, 2, n))
        } else {
            match (vals[0], vals[1]) {
                (ValModel::True, ValModel::True) => pure_out(ValModel::True),
                (ValModel::True, ValModel::False) => pure_out(ValModel::False),
                (ValModel::False, ValModel::True) => pure_out(ValModel::False),
                (ValModel::False, ValModel::False) => pure_out(ValModel::False),
                _ => type_error(id, "boolean arguments expected"@),
            }
        }
    
}

pub open spec fn spec_prim_or(id: Seq<char>, vals: Seq<ValModel>) -> PrimOut {
    let n = vals.len() as int;
        if n != 2 {
            pure_out(arg_error_val(id, 2, n))
        } else {
            match (vals[0], vals[1]) {
                (ValModel::True, ValModel::True) => pure_out(ValModel::True),
                (ValModel::True, ValModel::False) => pure_out(ValModel::True),
                (ValModel::False, ValModel::True) => pure_out(ValModel::True),
                (ValModel::False, ValModel::False) => pure_out(ValModel::False),
                _ => type_error(id, "boolean arguments expected"@),
            }
        }
    
}

pub open spec fn spec_prim_cond(id: Seq<char>, vals: Seq<ValModel>) -> PrimOut {
    let n = vals.len() as int;
        if n != 3 {
            pure_out(arg_error_val(id, 3, n))
        } else {
            match vals[0] {
                ValModel::Exception(x) => pure_out(vals[0]),
                ValModel::True => pure_out(vals[1]),
                ValModel::False => pure_out(vals[2]),
                _ => type_error(id, "expected boolean for first argument"@),
            }
        }
    
}

pub open spec fn spec_prim_eq(id: Seq<char>, vals: Seq<ValModel>) -> PrimOut {
    let n = vals.len() as int;
        if n != 2 {
            pure_out(arg_error_val(id, 2, n))
        } else {
            pure_out(bool_val(val_equal(vals[0], vals[1])))
        }
    
}

pub open spec fn spec_prim_gt(id: Seq<char>, vals: Seq<ValModel>) -> PrimOut {
    let n = vals.len() as int;
        if n != 2 {
            pure_out(arg_error_val(id, 2, n))
        } else {
            match vals[0] {
                ValModel::Integer(x) => match vals[1] {
                    ValModel::Integer(y) => pure_out(bool_val(x > y)),
                    ValModel::Float(b) => pure_out(bool_val(float_gt(float_of_int(x), b))),
                    _ => type_error(id, "numeric arguments expected"@),
                },
                ValModel::Float(a) => match vals[1] {
                    ValModel::Integer(y) => pure_out(bool_val(float_gt(a, float_of_int(y)))),
                    ValModel::Float(b) => pure_out(bool_val(float_gt(a, b))),
                    _ => type_error(id, "numeric arguments expected"@),
                },
                _ => type_error(id, "numeric arguments expected"@),
            }
        }
    
}

pub open spec fn spec_prim_lt(id: Seq<char>, vals: Seq<ValModel>) -> PrimOut {
    let n = vals.len() as int;
        if n != 2 {
            pure_out(arg_error_val(id, 2, n))
        } else {
            match vals[0] {
                ValModel::Integer(x) => match vals[1] {
                    ValModel::Integer(y) => pure_out(bool_val(x < y)),
                    ValModel::Float(b) => pure_out(bool_val(float_lt(float_of_int(x), b))),
                    _ => type_error(id, "numeric arguments expected"@),
                },
                ValModel::Float(a) => match vals[1] {
                    ValModel::Integer(y) => pure_out(bool_val(float_lt(a, float_of_int(y)))),
                    ValModel::Float(b) => pure_out(bool_val(float_lt(a, b))),
                    _ => type_error(id, "numeric arguments expected"@),
                },
                _ => type_error(id, "numeric arguments expected"@),
            }
        }
    
}

pub open spec fn spec_prim_substr(id: Seq<char>, vals: Seq<ValModel>) -> PrimOut {
    let n = vals.len() as int;
        if n != 3 {
            pure_out(arg_error_val(id, 3, n))
        } else {
            match vals[0] {
                ValModel::Text(s) => match vals[1] {
                    ValModel::Integer(start) => match vals[2] {
                        ValModel::Integer(len) => pure_out(
                            ValModel::Text(substr_model(s, start as int, len as int)),
                        ),
                        _ => type_error(id, "third argument expects integer for length"@),
                    },
                    _ => type_error(id, "second argument expects integer for start"@),
                },
                _ => type_error(id, "first argument must be string"@),
            }
        }
    
}

pub open spec fn spec_prim_strlen(id: Seq<char>, vals: Seq<ValModel>) -> PrimOut {
    let n = vals.len() as int;
        if n != 1 {
            pure_out(arg_error_val(id, 1, n))
        } else {
            match vals[0] {
                ValModel::Text(s) => pure_out(ValModel::Integer(s.len() as i64)),
                _ => type_error(id, "string argument expected"@),
            }
        }
    
}

pub open spec fn spec_prim_car(id: Seq<char>, vals: Seq<ValModel>) -> PrimOut {
    let n = vals.len() as int;
        if n != 1 {
            pure_out(arg_error_val(id, 1, n))
        } else {
            match vals[0] {
                ValModel::List(items) => if items.len() == 0 {
                    pure_out(
                        exn_val(
                            ExceptionType::RuntimeError,
                            id,
                            "attempt to get first item of empty list"@,
                        ),
                    )
                } else {
                    pure_out(items[0])
                },
                _ => type_error(id, "list argument expected"@),
            }
        }
    
}

pub open spec fn spec_prim_cdr(id: Seq<char>, vals: Seq<ValModel>) -> PrimOut {
    let n = vals.len() as int;
        if n != 1 {
            pure_out(arg_error_val(id, 1, n))
        } else {
            match vals[0] {
                ValModel::List(items) => if items.len() == 0 {
                    pure_out(ValModel::List(Seq::empty()))
                } else {
                    pure_out(ValModel::List(items.drop_first()))
                },
                _ => type_error(id, "list argument expected"@),
            }
        }
    
}

pub open spec fn spec_prim_catch(id: Seq<char>, vals: Seq<ValModel>) -> PrimOut {
    let n = vals.len() as int;
        if n != 1 {
            pure_out(arg_error_val(id, 1, n))
        } else {
            match vals[0] {
                ValModel::Exception(x) => pure_out(ValModel::List(exn_to_list_model(x))),
                _ => pure_out(ValModel::List(seq![ValModel::Text("ok"@), vals[0]])),
            }
        }
    
}

pub open spec fn spec_prim_raise(id: Seq<char>, vals: Seq<ValModel>) -> PrimOut {
    let n = vals.len() as int;
        if n != 1 {
            pure_out(arg_error_val(id, 1, n))
        } else {
            pure_out(
                ValModel::Exception(
                    ExnModel {
                        flavor: ExceptionType::Error,
                        payload: Box::new(vals[0]),
                        stack: Seq::empty(),
                    },
                ),
            )
        }
    
}

pub open spec fn spec_prim_early_return(id: Seq<char>, vals: Seq<ValModel>) -> PrimOut {
    let n = vals.len() as int;
        if n != 1 {
            pure_out(arg_error_val(id, 1, n))
        } else {
            pure_out(
                ValModel::Exception(
                    ExnModel {
                        flavor: ExceptionType::Return,
                        payload: Box::new(vals[0]),
                        stack: Seq::empty(),
                    },
                ),
            )
        }
    
}

pub open spec fn spec_prim_undef(id: Seq<char>, vals: Seq<ValModel>) -> PrimOut {
        pure_out(exn_val(ExceptionType::UndefError, id, "function is not defined in scope"@))
    
}



/// The substring by character index: an out-of-range start gives the empty
/// string, and the length is clamped to the end (a negative length reaches
/// the end).
pub open spec fn substr_model(s: Seq<char>, start: int, len: int) -> Seq<char> {
    if start < 0 || start >= s.len() {
        Seq::empty()
    } else {
        let end = if len < 0 || start + len >= s.len() {
            s.len() as int
        } else {
            start + len
        };
        s.subrange(start, end)
    }
}

// ---------------------------------------------------------------------------
// Executable helpers
// ---------------------------------------------------------------------------

/// Compares an identifier with a literal name.
pub(crate) fn str_is(id: &String, lit: &str) -> (r: bool)
    ensures
        r == (id@ == lit@),
{
    let t = String::from_str(lit);
    *id == t
}

/// Structural equality of two values, following `val_equal`.
pub fn val_equal_exec(a: &Evaluation, b: &Evaluation) -> (r: bool)
    ensures
        r == val_equal(a@, b@),
    decreases val_size(a@), 0int,
{
    match a {
        Evaluation::True => matches!(b, Evaluation::True),
        Evaluation::False => matches!(b, Evaluation::False),
        Evaluation::Integer(x) => match b {
            Evaluation::Integer(y) => *x == *y,
            _ => false,
        },
        Evaluation::Float(x) => match b {
            Evaluation::Float(y) => crate::floats::float_eq_exec(*x, *y),
            _ => false,
        },
        Evaluation::Text(s) => match b {
            Evaluation::Text(t) => *s == *t,
            _ => false,
        },
        Evaluation::List(xs) => match b {
            Evaluation::List(ys) => {
                proof {
                    lemma_vals_model_len(xs.items@);
                    lemma_vals_model_len(ys.items@);
                }
                if xs.items.len() != ys.items.len() {
                    false
                } else {
                    proof {
                        assert(crate::encoding::vals_model(xs.items@).skip(0)
                            =~= crate::encoding::vals_model(xs.items@));
                        assert(crate::encoding::vals_model(ys.items@).skip(0)
                            =~= crate::encoding::vals_model(ys.items@));
                    }
                    vals_equal_from(&xs.items, &ys.items, 0)
                }
            },
            _ => false,
        },
        _ => false,
    }
}

/// Element-wise equality of two equally long value vectors from a position.
fn vals_equal_from(x: &Vec<Evaluation>, y: &Vec<Evaluation>, start: usize) -> (r: bool)
    requires
        x@.len() == y@.len(),
        start <= x@.len(),
    ensures
        r == vals_equal_seq(
            crate::encoding::vals_model(x@).skip(start as int),
            crate::encoding::vals_model(y@).skip(start as int),
        ),
    decreases vals_size(crate::encoding::vals_model(x@).skip(start as int)), 1int,
{
    let ghost xm = crate::encoding::vals_model(x@);
    let ghost ym = crate::encoding::vals_model(y@);
    proof {
        lemma_vals_model_len(x@);
        lemma_vals_model_len(y@);
    }
    if start == x.len() {
        proof {
            assert(xm.skip(start as int).len() == 0);
            assert(ym.skip(start as int).len() == 0);
        }
        true
    } else {
        proof {
            lemma_vals_model_index(x@, start as int);
            lemma_vals_model_index(y@, start as int);
            lemma_vals_size_element(xm.skip(start as int), 0);
            assert(xm.skip(start as int)[0] == xm[start as int]);
            assert(ym.skip(start as int)[0] == ym[start as int]);
        }
        if !val_equal_exec(&x[start], &y[start]) {
            false
        } else {
            proof {
                assert(xm.skip(start as int).drop_first() =~= xm.skip(start + 1));
                assert(ym.skip(start as int).drop_first() =~= ym.skip(start + 1));
                assert(vals_size(xm.skip(start + 1)) < vals_size(xm.skip(start as int))) by {
                    lemma_vals_size_element(xm.skip(start as int), 0);
                }
            }
            vals_equal_from(x, y, start + 1)
        }
    }
}

/// Checks a primitive's arity: the arity-mismatch exception when the count
/// is wrong, nothing otherwise.
pub fn expect_args(count: usize, param: &ListEval, id: &String) -> (r: Option<Evaluation>)
    ensures
        r is None <==> count as int == param@.len(),
        r matches Some(e) ==> e@ == arg_error_val(id@, count as int, param@.len() as int),
{
    proof {
        lemma_vals_model_len(param.items@);
    }
    if count != param.items.len() {
        let mut msg = String::from_str("expected argument list of length ");
        let c = crate::numbers::usize_string(count);
        msg.append(c.as_str());
        msg.append(" but got ");
        let g = crate::numbers::usize_string(param.items.len());
        msg.append(g.as_str());
        Some(crate::evaluator::exception(ExceptionType::ArgError, id, msg))
    } else {
        None
    }
}

/// Truncated division of in-range 64-bit values stays in range, except for
/// the most negative value divided by minus one.
pub proof fn lemma_div_in_range(x: int, d: int)
    requires
        i64::MIN <= x <= i64::MAX,
        i64::MIN <= d <= i64::MAX,
        d != 0,
        !(x == i64::MIN && d == -1),
    ensures
        i64::MIN <= div_trunc(x, d) <= i64::MAX,
{
    if x == 0 {
    } else if x > 0 && d > 0 {
        lemma_nonneg_div_bound(x, d);
    } else if x < 0 && d < 0 {
        let a = x * -1;
        let e = d * -1;
        lemma_nonneg_div_bound(a, e);
        if e == 1 {
            assert(x != i64::MIN);
            assert(a <= i64::MAX);
        } else {
            assert(a / e <= a / 2) by (nonlinear_arith)
                requires
                    a >= 0,
                    e >= 2,
            ;
            assert(a / 2 <= i64::MAX);
        }
    } else if x < 0 {
        let a = x * -1;
        lemma_nonneg_div_bound(a, d);
    } else {
        let e = d * -1;
        lemma_nonneg_div_bound(x, e);
    }
}

/// Division of a non-negative value by a positive one stays between zero and
/// the dividend.
pub proof fn lemma_nonneg_div_bound(a: int, e: int)
    requires
        a >= 0,
        e >= 1,
    ensures
        0 <= a / e <= a,
{
    assert(0 <= a / e <= a) by (nonlinear_arith)
        requires
            a >= 0,
            e >= 1,
    ;
}

/// The truncated remainder of in-range 64-bit values stays in range, except
/// for the most negative value and minus one.
pub proof fn lemma_rem_in_range(x: int, d: int)
    requires
        i64::MIN <= x <= i64::MAX,
        i64::MIN <= d <= i64::MAX,
        d != 0,
        !(x == i64::MIN && d == -1),
    ensures
        i64::MIN <= rem_trunc(x, d) <= i64::MAX,
{
    if x == 0 {
    } else if x > 0 && d > 0 {
        lemma_mod_bound(x, d);
    } else if x < 0 && d < 0 {
        lemma_mod_bound(x * -1, d * -1);
    } else if x < 0 {
        lemma_mod_bound(x * -1, d);
    } else {
        lemma_mod_bound(x, d * -1);
    }
}

/// The Euclidean remainder lies between zero and the modulus.
pub proof fn lemma_mod_bound(a: int, e: int)
    requires
        a >= 0,
        e >= 1,
    ensures
        0 <= a % e < e,
{
    assert(0 <= a % e < e) by (nonlinear_arith)
        requires
            a >= 0,
            e >= 1,
    ;
}

/// The primitive dispatcher: applies the built-in named `id` to the already
/// evaluated arguments and returns the resulting value, appending to `out`
/// any line the call printed.
/// The primitive dispatcher: applies the built-in named `id` to the already
/// evaluated arguments and returns the resulting value, appending to `out`
/// any line the call printed.
pub fn system_functions(id: String, param: ListEval, out: &mut Vec<String>) -> (r: Evaluation)
    ensures
        r@ == spec_primitive(id@, param@).value,
        crate::encoding::out_model(final(out)@) == crate::encoding::out_model(old(out)@)
            + spec_primitive(id@, param@).out,
{
    let ghost vals = param@;
    proof {
        lemma_vals_model_len(param.items@);
        assert(crate::encoding::out_model(out@) + Seq::<Seq<char>>::empty()
            =~= crate::encoding::out_model(out@));
    }
    if !str_is(&id, "?") && !str_is(&id, "catch") {
        let mut i: usize = 0;
        while i < param.items.len()
            invariant
                i <= param.items.len(),
                vals == param@,
                vals.len() == param.items@.len(),
                id@ != "?"@,
                id@ != "catch"@,
                crate::encoding::out_model(out@) + Seq::<Seq<char>>::empty()
                    == crate::encoding::out_model(out@),
                forall|j: int| 0 <= j < i ==> !(#[trigger] vals[j] is Exception),
            decreases param.items@.len() - i,
        {
            proof {
                lemma_vals_model_index(param.items@, i as int);
            }
            if matches!(&param.items[i], Evaluation::Exception(_)) {
                proof {
                    lemma_first_exn_index(vals, i as int);
                    assert(has_exception(vals));
                }
                return param.items[i].clone();
            }
            i += 1;
        }
        proof {
            assert(!has_exception(vals));
        }
    }
    if str_is(&id, "int") {
        return prim_int(&id, &param);
    } else if str_is(&id, "float") {
        return prim_float(&id, &param);
    } else if str_is(&id, "string") {
        return prim_string(&id, &param);
    } else if str_is(&id, ">>") {
        return prim_print(&id, &param, out);
    } else if str_is(&id, "+") {
        return prim_add(&id, &param);
    } else if str_is(&id, "-") {
        return prim_sub(&id, &param);
    } else if str_is(&id, "*") {
        return prim_mul(&id, &param);
    } else if str_is(&id, "/") {
        return prim_div(&id, &param);
    } else if str_is(&id, "%") {
        return prim_rem(&id, &param);
    } else if str_is(&id, "!") {
        return prim_not(&id, &param);
    } else if str_is(&id, "&") {
        return prim_and(&id, &param);
    } else if str_is(&id, "|") {
        return prim_or(&id, &param);
    } else if str_is(&id, "?") {
        return prim_cond(&id, &param);
    } else if str_is(&id, "=") {
        return prim_eq(&id, &param);
    } else if str_is(&id, ">") {
        return prim_gt(&id, &param);
    } else if str_is(&id, "<") {
        return prim_lt(&id, &param);
    } else if str_is(&id, "substr") {
        return prim_substr(&id, &param);
    } else if str_is(&id, "strlen") {
        return prim_strlen(&id, &param);
    } else if str_is(&id, "car") {
        return prim_car(&id, &param);
    } else if str_is(&id, "cdr") {
        return prim_cdr(&id, &param);
    } else if str_is(&id, "catch") {
        return prim_catch(&id, &param);
    } else if str_is(&id, "raise") {
        return prim_raise(&id, &param);
    } else if str_is(&id, "~") {
        return prim_early_return(&id, &param);
    } else {
        return crate::evaluator::exception(
            ExceptionType::UndefError,
            &id,
            String::from_str("function is not defined in scope"),
        );
    }
}

fn prim_int(id: &String, param: &ListEval) -> (r: Evaluation)
    requires
        id@ == "int"@,
    ensures
        r@ == spec_prim_int(id@, param@).value,
        spec_prim_int(id@, param@).out == Seq::<Seq<char>>::empty(),
{
    proof {
        lemma_vals_model_len(param.items@);
        if param.items@.len() > 0 {
            lemma_vals_model_index(param.items@, 0);
        }
        if param.items@.len() > 1 {
            lemma_vals_model_index(param.items@, 1);
        }
        if param.items@.len() > 2 {
            lemma_vals_model_index(param.items@, 2);
        }
    }
    let ghost vals = param@;
        match expect_args(1, param, id) {
            Some(e) => e,
            None => match &param.items[0] {
                Evaluation::Float(b) => Evaluation::Integer(crate::floats::float_trunc_exec(*b)),
                Evaluation::Text(s) => match crate::numbers::parse_int_exec(s) {
                    Some(x) => Evaluation::Integer(x),
                    None => {
                        let mut msg = String::from_str("unable to parse string: ");
                        msg.append(s.as_str());
                        crate::evaluator::exception(ExceptionType::ParseError, id, msg)
                    },
                },
                _ => crate::evaluator::exception(
                    ExceptionType::TypeError,
                    id,
                    String::from_str("float or string argument expected"),
                ),
            },
        }
    
}

fn prim_float(id: &String, param: &ListEval) -> (r: Evaluation)
    requires
        id@ == "float"@,
    ensures
        r@ == spec_prim_float(id@, param@).value,
        spec_prim_float(id@, param@).out == Seq::<Seq<char>>::empty(),
{
    proof {
        lemma_vals_model_len(param.items@);
        if param.items@.len() > 0 {
            lemma_vals_model_index(param.items@, 0);
        }
        if param.items@.len() > 1 {
            lemma_vals_model_index(param.items@, 1);
        }
        if param.items@.len() > 2 {
            lemma_vals_model_index(param.items@, 2);
        }
    }
    let ghost vals = param@;
        match expect_args(1, param, id) {
            Some(e) => e,
            None => match &param.items[0] {
                Evaluation::Integer(x) => Evaluation::Float(crate::floats::float_of_int_exec(*x)),
                Evaluation::Text(s) => match crate::floats::float_parse_exec(s) {
                    Some(b) => Evaluation::Float(b),
                    None => {
                        let mut msg = String::from_str("unable to parse string: ");
                        msg.append(s.as_str());
                        crate::evaluator::exception(ExceptionType::ParseError, id, msg)
                    },
                },
                _ => crate::evaluator::exception(
                    ExceptionType::TypeError,
                    id,
                    String::from_str("int or string argument expected"),
                ),
            },
        }
    
}

fn prim_string(id: &String, param: &ListEval) -> (r: Evaluation)
    requires
        id@ == "string"@,
    ensures
        r@ == spec_prim_string(id@, param@).value,
        spec_prim_string(id@, param@).out == Seq::<Seq<char>>::empty(),
{
    proof {
        lemma_vals_model_len(param.items@);
        if param.items@.len() > 0 {
            lemma_vals_model_index(param.items@, 0);
        }
        if param.items@.len() > 1 {
            lemma_vals_model_index(param.items@, 1);
        }
        if param.items@.len() > 2 {
            lemma_vals_model_index(param.items@, 2);
        }
    }
    let ghost vals = param@;
        match expect_args(1, param, id) {
            Some(e) => e,
            None => Evaluation::Text(param.items[0].render()),
        }
    
}

fn prim_print(id: &String, param: &ListEval, out: &mut Vec<String>) -> (r: Evaluation)
    requires
        id@ == ">>"@,
    ensures
        r@ == spec_prim_print(id@, param@).value,
        crate::encoding::out_model(final(out)@) == crate::encoding::out_model(old(out)@)
            + spec_prim_print(id@, param@).out,
{
    proof {
        lemma_vals_model_len(param.items@);
        if param.items@.len() > 0 {
            lemma_vals_model_index(param.items@, 0);
        }
        if param.items@.len() > 1 {
            lemma_vals_model_index(param.items@, 1);
        }
        if param.items@.len() > 2 {
            lemma_vals_model_index(param.items@, 2);
        }
        assert(crate::encoding::out_model(out@) + Seq::<Seq<char>>::empty()
            =~= crate::encoding::out_model(out@));
    }
    let ghost vals = param@;
        match expect_args(1, param, id) {
            Some(e) => e,
            None => match &param.items[0] {
                Evaluation::Text(s) => {
                    let line = s.clone();
                    proof {
                        assert(crate::encoding::out_model(out@.push(line))
                            =~= crate::encoding::out_model(out@) + seq![s@]);
                    }
                    out.push(line);
                    Evaluation::False
                },
                _ => crate::evaluator::exception(
                    ExceptionType::TypeError,
                    id,
                    String::from_str("string argument expected"),
                ),
            },
        }
    
}

fn prim_add(id: &String, param: &ListEval) -> (r: Evaluation)
    requires
        id@ == "+"@,
    ensures
        r@ == spec_prim_add(id@, param@).value,
        spec_prim_add(id@, param@).out == Seq::<Seq<char>>::empty(),
{
    proof {
        lemma_vals_model_len(param.items@);
        if param.items@.len() > 0 {
            lemma_vals_model_index(param.items@, 0);
        }
        if param.items@.len() > 1 {
            lemma_vals_model_index(param.items@, 1);
        }
        if param.items@.len() > 2 {
            lemma_vals_model_index(param.items@, 2);
        }
    }
    let ghost vals = param@;
        match expect_args(2, param, id) {
            Some(e) => e,
            None => match &param.items[0] {
                Evaluation::Integer(x) => match &param.items[1] {
                    Evaluation::Integer(y) => Evaluation::Integer((*x).wrapping_add(*y)),
                    Evaluation::Float(b) => Evaluation::Float(
                        crate::floats::float_add_exec(crate::floats::float_of_int_exec(*x), *b),
                    ),
                    _ => crate::evaluator::exception(
                        ExceptionType::TypeMismatch,
                        id,
                        String::from_str("mismatched argument types"),
                    ),
                },
                Evaluation::Float(a) => match &param.items[1] {
                    Evaluation::Integer(y) => Evaluation::Float(
                        crate::floats::float_add_exec(*a, crate::floats::float_of_int_exec(*y)),
                    ),
                    Evaluation::Float(b) => Evaluation::Float(crate::floats::float_add_exec(*a, *b)),
                    _ => crate::evaluator::exception(
                        ExceptionType::TypeMismatch,
                        id,
                        String::from_str("mismatched argument types"),
                    ),
                },
                Evaluation::Text(s) => match &param.items[1] {
                    Evaluation::Text(t) => {
                        let mut rc = s.clone();
                        rc.append(t.as_str());
                        Evaluation::Text(rc)
                    },
                    _ => crate::evaluator::exception(
                        ExceptionType::TypeMismatch,
                        id,
                        String::from_str("mismatched argument types"),
                    ),
                },
                Evaluation::List(xs) => match &param.items[1] {
                    Evaluation::List(ys) => {
                        let mut rc = xs.clone();
                        let mut more = ys.clone();
                        proof {
                            lemma_vals_append(rc.items@, more.items@);
                        }
                        rc.items.append(&mut more.items);
                        Evaluation::List(rc)
                    },
                    _ => crate::evaluator::exception(
                        ExceptionType::TypeMismatch,
                        id,
                        String::from_str("can only append list to list"),
                    ),
                },
                _ => crate::evaluator::exception(
                    ExceptionType::TypeError,
                    id,
                    String::from_str("numbers, strings, or list arguments expected"),
                ),
            },
        }
    
}

fn prim_sub(id: &String, param: &ListEval) -> (r: Evaluation)
    requires
        id@ == "-"@,
    ensures
        r@ == spec_prim_sub(id@, param@).value,
        spec_prim_sub(id@, param@).out == Seq::<Seq<char>>::empty(),
{
    proof {
        lemma_vals_model_len(param.items@);
        if param.items@.len() > 0 {
            lemma_vals_model_index(param.items@, 0);
        }
        if param.items@.len() > 1 {
            lemma_vals_model_index(param.items@, 1);
        }
        if param.items@.len() > 2 {
            lemma_vals_model_index(param.items@, 2);
        }
    }
    let ghost vals = param@;
        match expect_args(2, param, id) {
            Some(e) => e,
            None => match &param.items[0] {
                Evaluation::Integer(x) => match &param.items[1] {
                    Evaluation::Integer(y) => Evaluation::Integer((*x).wrapping_sub(*y)),
                    Evaluation::Float(b) => Evaluation::Float(
                        crate::floats::float_sub_exec(crate::floats::float_of_int_exec(*x), *b),
                    ),
                    _ => numeric_type_error(id),
                },
                Evaluation::Float(a) => match &param.items[1] {
                    Evaluation::Integer(y) => Evaluation::Float(
                        crate::floats::float_sub_exec(*a, crate::floats::float_of_int_exec(*y)),
                    ),
                    Evaluation::Float(b) => Evaluation::Float(crate::floats::float_sub_exec(*a, *b)),
                    _ => numeric_type_error(id),
                },
                _ => numeric_type_error(id),
            },
        }
    
}

fn prim_mul(id: &String, param: &ListEval) -> (r: Evaluation)
    requires
        id@ == "*"@,
    ensures
        r@ == spec_prim_mul(id@, param@).value,
        spec_prim_mul(id@, param@).out == Seq::<Seq<char>>::empty(),
{
    proof {
        lemma_vals_model_len(param.items@);
        if param.items@.len() > 0 {
            lemma_vals_model_index(param.items@, 0);
        }
        if param.items@.len() > 1 {
            lemma_vals_model_index(param.items@, 1);
        }
        if param.items@.len() > 2 {
            lemma_vals_model_index(param.items@, 2);
        }
    }
    let ghost vals = param@;
        match expect_args(2, param, id) {
            Some(e) => e,
            None => match &param.items[0] {
                Evaluation::Integer(x) => match &param.items[1] {
                    Evaluation::Integer(y) => Evaluation::Integer((*x).wrapping_mul(*y)),
                    Evaluation::Float(b) => Evaluation::Float(
                        crate::floats::float_mul_exec(crate::floats::float_of_int_exec(*x), *b),
                    ),
                    _ => numeric_type_error(id),
                },
                Evaluation::Float(a) => match &param.items[1] {
                    Evaluation::Integer(y) => Evaluation::Float(
                        crate::floats::float_mul_exec(*a, crate::floats::float_of_int_exec(*y)),
                    ),
                    Evaluation::Float(b) => Evaluation::Float(crate::floats::float_mul_exec(*a, *b)),
                    _ => numeric_type_error(id),
                },
                _ => numeric_type_error(id),
            },
        }
    
}

fn prim_div(id: &String, param: &ListEval) -> (r: Evaluation)
    requires
        id@ == "/"@,
    ensures
        r@ == spec_prim_div(id@, param@).value,
        spec_prim_div(id@, param@).out == Seq::<Seq<char>>::empty(),
{
    proof {
        lemma_vals_model_len(param.items@);
        if param.items@.len() > 0 {
            lemma_vals_model_index(param.items@, 0);
        }
        if param.items@.len() > 1 {
            lemma_vals_model_index(param.items@, 1);
        }
        if param.items@.len() > 2 {
            lemma_vals_model_index(param.items@, 2);
        }
    }
    let ghost vals = param@;
        match expect_args(2, param, id) {
            Some(e) => e,
            None => match &param.items[0] {
                Evaluation::Integer(x) => match &param.items[1] {
                    Evaluation::Integer(y) => {
                        if *y == 0 {
                            crate::evaluator::exception(
                                ExceptionType::DivByZero,
                                id,
                                String::from_str("division by zero"),
                            )
                        } else if *x == i64::MIN && *y == -1 {
                            Evaluation::Integer(i64::MIN)
                        } else {
                            proof {
                                lemma_div_in_range(*x as int, *y as int);
                            }
                            match (*x).checked_div(*y) {
                                Some(q) => Evaluation::Integer(q),
                                None => {
                                    proof {
                                        assert(false);
                                    }
                                    Evaluation::False
                                },
                            }
                        }
                    },
                    Evaluation::Float(b) => Evaluation::Float(
                        crate::floats::float_div_exec(crate::floats::float_of_int_exec(*x), *b),
                    ),
                    _ => numeric_type_error(id),
                },
                Evaluation::Float(a) => match &param.items[1] {
                    Evaluation::Integer(y) => Evaluation::Float(
                        crate::floats::float_div_exec(*a, crate::floats::float_of_int_exec(*y)),
                    ),
                    Evaluation::Float(b) => Evaluation::Float(crate::floats::float_div_exec(*a, *b)),
                    _ => numeric_type_error(id),
                },
                _ => numeric_type_error(id),
            },
        }
    
}

fn prim_rem(id: &String, param: &ListEval) -> (r: Evaluation)
    requires
        id@ == "%"@,
    ensures
        r@ == spec_prim_rem(id@, param@).value,
        spec_prim_rem(id@, param@).out == Seq::<Seq<char>>::empty(),
{
    proof {
        lemma_vals_model_len(param.items@);
        if param.items@.len() > 0 {
            lemma_vals_model_index(param.items@, 0);
        }
        if param.items@.len() > 1 {
            lemma_vals_model_index(param.items@, 1);
        }
        if param.items@.len() > 2 {
            lemma_vals_model_index(param.items@, 2);
        }
    }
    let ghost vals = param@;
        match expect_args(2, param, id) {
            Some(e) => e,
            None => match &param.items[0] {
                Evaluation::Integer(x) => match &param.items[1] {
                    Evaluation::Integer(y) => {
                        if *y == 0 {
                            crate::evaluator::exception(
                                ExceptionType::DivByZero,
                                id,
                                String::from_str("division by zero"),
                            )
                        } else if *x == i64::MIN && *y == -1 {
                            Evaluation::Integer(0)
                        } else {
                            proof {
                                lemma_rem_in_range(*x as int, *y as int);
                            }
                            match (*x).checked_rem(*y) {
                                Some(q) => Evaluation::Integer(q),
                                None => {
                                    proof {
                                        assert(false);
                                    }
                                    Evaluation::False
                                },
                            }
                        }
                    },
                    _ => crate::evaluator::exception(
                        ExceptionType::TypeError,
                        id,
                        String::from_str("integer arguments expected"),
                    ),
                },
                _ => crate::evaluator::exception(
                    ExceptionType::TypeError,
                    id,
                    String::from_str("integer arguments expected"),
                ),
            },
        }
    
}

fn prim_not(id: &String, param: &ListEval) -> (r: Evaluation)
    requires
        id@ == "!"@,
    ensures
        r@ == spec_prim_not(id@, param@).value,
        spec_prim_not(id@, param@).out == Seq::<Seq<char>>::empty(),
{
    proof {
        lemma_vals_model_len(param.items@);
        if param.items@.len() > 0 {
            lemma_vals_model_index(param.items@, 0);
        }
        if param.items@.len() > 1 {
            lemma_vals_model_index(param.items@, 1);
        }
        if param.items@.len() > 2 {
            lemma_vals_model_index(param.items@, 2);
        }
    }
    let ghost vals = param@;
        match expect_args(1, param, id) {
            Some(e) => e,
            None => match &param.items[0] {
                Evaluation::True => Evaluation::False,
                Evaluation::False => Evaluation::True,
                _ => crate::evaluator::exception(
                    ExceptionType::TypeError,
                    id,
                    String::from_str("boolean argument expected"),
                ),
            },
        }
    
}

fn prim_and(id: &String, param: &ListEval) -> (r: Evaluation)
    requires
        id@ == "&"@,
    ensures
        r@ == spec_prim_and(id@, param@).value,
        spec_prim_and(id@, param@).out == Seq::<Seq<char>>::empty(),
{
    proof {
        lemma_vals_model_len(param.items@);
        if param.items@.len() > 0 {
            lemma_vals_model_index(param.items@, 0);
        }
        if param.items@.len() > 1 {
            lemma_vals_model_index(param.items@, 1);
        }
        if param.items@.len() > 2 {
            lemma_vals_model_index(param.items@, 2);
        }
    }
    let ghost vals = param@;
        match expect_args(2, param, id) {
            Some(e) => e,
            None => match (&param.items[0], &param.items[1]) {
                (Evaluation::True, Evaluation::True) => Evaluation::True,
                (Evaluation::True, Evaluation::False) => Evaluation::False,
                (Evaluation::False, Evaluation::True) => Evaluation::False,
                (Evaluation::False, Evaluation::False) => Evaluation::False,
                _ => crate::evaluator::exception(
                    ExceptionType::TypeError,
                    id,
                    String::from_str("boolean arguments expected"),
                ),
            },
        }
    
}

fn prim_or(id: &String, param: &ListEval) -> (r: Evaluation)
    requires
        id@ == "|"@,
    ensures
        r@ == spec_prim_or(id@, param@).value,
        spec_prim_or(id@, param@).out == Seq::<Seq<char>>::empty(),
{
    proof {
        lemma_vals_model_len(param.items@);
        if param.items@.len() > 0 {
            lemma_vals_model_index(param.items@, 0);
        }
        if param.items@.len() > 1 {
            lemma_vals_model_index(param.items@, 1);
        }
        if param.items@.len() > 2 {
            lemma_vals_model_index(param.items@, 2);
        }
    }
    let ghost vals = param@;
        match expect_args(2, param, id) {
            Some(e) => e,
            None => match (&param.items[0], &param.items[1]) {
                (Evaluation::True, Evaluation::True) => Evaluation::True,
                (Evaluation::True, Evaluation::False) => Evaluation::True,
                (Evaluation::False, Evaluation::True) => Evaluation::True,
                (Evaluation::False, Evaluation::False) => Evaluation::False,
                _ => crate::evaluator::exception(
                    ExceptionType::TypeError,
                    id,
                    String::from_str("boolean arguments expected"),
                ),
            },
        }
    
}

fn prim_cond(id: &String, param: &ListEval) -> (r: Evaluation)
    requires
        id@ == "?"@,
    ensures
        r@ == spec_prim_cond(id@, param@).value,
        spec_prim_cond(id@, param@).out == Seq::<Seq<char>>::empty(),
{
    proof {
        lemma_vals_model_len(param.items@);
        if param.items@.len() > 0 {
            lemma_vals_model_index(param.items@, 0);
        }
        if param.items@.len() > 1 {
            lemma_vals_model_index(param.items@, 1);
        }
        if param.items@.len() > 2 {
            lemma_vals_model_index(param.items@, 2);
        }
    }
    let ghost vals = param@;
        match expect_args(3, param, id) {
            Some(e) => e,
            None => match &param.items[0] {
                Evaluation::Exception(_) => param.items[0].clone(),
                Evaluation::True => param.items[1].clone(),
                Evaluation::False => param.items[2].clone(),
                _ => crate::evaluator::exception(
                    ExceptionType::TypeError,
                    id,
                    String::from_str("expected boolean for first argument"),
                ),
            },
        }
    
}

fn prim_eq(id: &String, param: &ListEval) -> (r: Evaluation)
    requires
        id@ == "="@,
    ensures
        r@ == spec_prim_eq(id@, param@).value,
        spec_prim_eq(id@, param@).out == Seq::<Seq<char>>::empty(),
{
    proof {
        lemma_vals_model_len(param.items@);
        if param.items@.len() > 0 {
            lemma_vals_model_index(param.items@, 0);
        }
        if param.items@.len() > 1 {
            lemma_vals_model_index(param.items@, 1);
        }
        if param.items@.len() > 2 {
            lemma_vals_model_index(param.items@, 2);
        }
    }
    let ghost vals = param@;
        match expect_args(2, param, id) {
            Some(e) => e,
            None => {
                if val_equal_exec(&param.items[0], &param.items[1]) {
                    Evaluation::True
                } else {
                    Evaluation::False
                }
            },
        }
    
}

fn prim_gt(id: &String, param: &ListEval) -> (r: Evaluation)
    requires
        id@ == ">"@,
    ensures
        r@ == spec_prim_gt(id@, param@).value,
        spec_prim_gt(id@, param@).out == Seq::<Seq<char>>::empty(),
{
    proof {
        lemma_vals_model_len(param.items@);
        if param.items@.len() > 0 {
            lemma_vals_model_index(param.items@, 0);
        }
        if param.items@.len() > 1 {
            lemma_vals_model_index(param.items@, 1);
        }
        if param.items@.len() > 2 {
            lemma_vals_model_index(param.items@, 2);
        }
    }
    let ghost vals = param@;
        match expect_args(2, param, id) {
            Some(e) => e,
            None => match &param.items[0] {
                Evaluation::Integer(x) => match &param.items[1] {
                    Evaluation::Integer(y) => bool_result(*x > *y),
                    Evaluation::Float(b) => bool_result(
                        crate::floats::float_gt_exec(crate::floats::float_of_int_exec(*x), *b),
                    ),
                    _ => numeric_type_error(id),
                },
                Evaluation::Float(a) => match &param.items[1] {
                    Evaluation::Integer(y) => bool_result(
                        crate::floats::float_gt_exec(*a, crate::floats::float_of_int_exec(*y)),
                    ),
                    Evaluation::Float(b) => bool_result(crate::floats::float_gt_exec(*a, *b)),
                    _ => numeric_type_error(id),
                },
                _ => numeric_type_error(id),
            },
        }
    
}

fn prim_lt(id: &String, param: &ListEval) -> (r: Evaluation)
    requires
        id@ == "<"@,
    ensures
        r@ == spec_prim_lt(id@, param@).value,
        spec_prim_lt(id@, param@).out == Seq::<Seq<char>>::empty(),
{
    proof {
        lemma_vals_model_len(param.items@);
        if param.items@.len() > 0 {
            lemma_vals_model_index(param.items@, 0);
        }
        if param.items@.len() > 1 {
            lemma_vals_model_index(param.items@, 1);
        }
        if param.items@.len() > 2 {
            lemma_vals_model_index(param.items@, 2);
        }
    }
    let ghost vals = param@;
        match expect_args(2, param, id) {
            Some(e) => e,
            None => match &param.items[0] {
                Evaluation::Integer(x) => match &param.items[1] {
                    Evaluation::Integer(y) => bool_result(*x < *y),
                    Evaluation::Float(b) => bool_result(
                        crate::floats::float_lt_exec(crate::floats::float_of_int_exec(*x), *b),
                    ),
                    _ => numeric_type_error(id),
                },
                Evaluation::Float(a) => match &param.items[1] {
                    Evaluation::Integer(y) => bool_result(
                        crate::floats::float_lt_exec(*a, crate::floats::float_of_int_exec(*y)),
                    ),
                    Evaluation::Float(b) => bool_result(crate::floats::float_lt_exec(*a, *b)),
                    _ => numeric_type_error(id),
                },
                _ => numeric_type_error(id),
            },
        }
    
}

fn prim_substr(id: &String, param: &ListEval) -> (r: Evaluation)
    requires
        id@ == "substr"@,
    ensures
        r@ == spec_prim_substr(id@, param@).value,
        spec_prim_substr(id@, param@).out == Seq::<Seq<char>>::empty(),
{
    proof {
        lemma_vals_model_len(param.items@);
        if param.items@.len() > 0 {
            lemma_vals_model_index(param.items@, 0);
        }
        if param.items@.len() > 1 {
            lemma_vals_model_index(param.items@, 1);
        }
        if param.items@.len() > 2 {
            lemma_vals_model_index(param.items@, 2);
        }
    }
    let ghost vals = param@;
        match expect_args(3, param, id) {
            Some(e) => e,
            None => match &param.items[0] {
                Evaluation::Text(s) => match &param.items[1] {
                    Evaluation::Integer(start) => match &param.items[2] {
                        Evaluation::Integer(len) => substr_exec(s, *start, *len),
                        _ => crate::evaluator::exception(
                            ExceptionType::TypeError,
                            id,
                            String::from_str("third argument expects integer for length"),
                        ),
                    },
                    _ => crate::evaluator::exception(
                        ExceptionType::TypeError,
                        id,
                        String::from_str("second argument expects integer for start"),
                    ),
                },
                _ => crate::evaluator::exception(
                    ExceptionType::TypeError,
                    id,
                    String::from_str("first argument must be string"),
                ),
            },
        }
    
}

fn prim_strlen(id: &String, param: &ListEval) -> (r: Evaluation)
    requires
        id@ == "strlen"@,
    ensures
        r@ == spec_prim_strlen(id@, param@).value,
        spec_prim_strlen(id@, param@).out == Seq::<Seq<char>>::empty(),
{
    proof {
        lemma_vals_model_len(param.items@);
        if param.items@.len() > 0 {
            lemma_vals_model_index(param.items@, 0);
        }
        if param.items@.len() > 1 {
            lemma_vals_model_index(param.items@, 1);
        }
        if param.items@.len() > 2 {
            lemma_vals_model_index(param.items@, 2);
        }
    }
    let ghost vals = param@;
        match expect_args(1, param, id) {
            Some(e) => e,
            None => match &param.items[0] {
                Evaluation::Text(s) => {
                    let n = s.as_str().unicode_len();
                    Evaluation::Integer(#[verifier::truncate] (n as i64))
                },
                _ => crate::evaluator::exception(
                    ExceptionType::TypeError,
                    id,
                    String::from_str("string argument expected"),
                ),
            },
        }
    
}

fn prim_car(id: &String, param: &ListEval) -> (r: Evaluation)
    requires
        id@ == "car"@,
    ensures
        r@ == spec_prim_car(id@, param@).value,
        spec_prim_car(id@, param@).out == Seq::<Seq<char>>::empty(),
{
    proof {
        lemma_vals_model_len(param.items@);
        if param.items@.len() > 0 {
            lemma_vals_model_index(param.items@, 0);
        }
        if param.items@.len() > 1 {
            lemma_vals_model_index(param.items@, 1);
        }
        if param.items@.len() > 2 {
            lemma_vals_model_index(param.items@, 2);
        }
    }
    let ghost vals = param@;
        match expect_args(1, param, id) {
            Some(e) => e,
            None => match &param.items[0] {
                Evaluation::List(list) => {
                    if list.items.len() == 0 {
                        crate::evaluator::exception(
                            ExceptionType::RuntimeError,
                            id,
                            String::from_str("attempt to get first item of empty list"),
                        )
                    } else {
                        proof {
                            lemma_vals_model_index(list.items@, 0);
                            lemma_vals_model_len(list.items@);
                        }
                        list.items[0].clone()
                    }
                },
                _ => crate::evaluator::exception(
                    ExceptionType::TypeError,
                    id,
                    String::from_str("list argument expected"),
                ),
            },
        }
    
}

fn prim_cdr(id: &String, param: &ListEval) -> (r: Evaluation)
    requires
        id@ == "cdr"@,
    ensures
        r@ == spec_prim_cdr(id@, param@).value,
        spec_prim_cdr(id@, param@).out == Seq::<Seq<char>>::empty(),
{
    proof {
        lemma_vals_model_len(param.items@);
        if param.items@.len() > 0 {
            lemma_vals_model_index(param.items@, 0);
        }
        if param.items@.len() > 1 {
            lemma_vals_model_index(param.items@, 1);
        }
        if param.items@.len() > 2 {
            lemma_vals_model_index(param.items@, 2);
        }
    }
    let ghost vals = param@;
        match expect_args(1, param, id) {
            Some(e) => e,
            None => match &param.items[0] {
                Evaluation::List(list) => {
                    let mut rc = list.clone();
                    if rc.items.len() > 0 {
                        let ghost pre = rc.items@;
                        rc.items.remove(0);
                        proof {
                            lemma_vals_remove_first(pre, rc.items@);
                        }
                    } else {
                        proof {
                            lemma_vals_model_len(list.items@);
                            assert(rc@ =~= Seq::<ValModel>::empty());
                        }
                    }
                    Evaluation::List(rc)
                },
                _ => crate::evaluator::exception(
                    ExceptionType::TypeError,
                    id,
                    String::from_str("list argument expected"),
                ),
            },
        }
    
}

fn prim_catch(id: &String, param: &ListEval) -> (r: Evaluation)
    requires
        id@ == "catch"@,
    ensures
        r@ == spec_prim_catch(id@, param@).value,
        spec_prim_catch(id@, param@).out == Seq::<Seq<char>>::empty(),
{
    proof {
        lemma_vals_model_len(param.items@);
        if param.items@.len() > 0 {
            lemma_vals_model_index(param.items@, 0);
        }
        if param.items@.len() > 1 {
            lemma_vals_model_index(param.items@, 1);
        }
        if param.items@.len() > 2 {
            lemma_vals_model_index(param.items@, 2);
        }
    }
    let ghost vals = param@;
        match expect_args(1, param, id) {
            Some(e) => e,
            None => match &param.items[0] {
                Evaluation::Exception(e) => Evaluation::List(e.to_list()),
                _ => {
                    let mut list = ListEval { items: Vec::new() };
                    list.items.push(Evaluation::Text(String::from_str("ok")));
                    list.items.push(param.items[0].clone());
                    proof {
                        lemma_vals_model_len(list.items@);
                        lemma_vals_model_index(list.items@, 0);
                        lemma_vals_model_index(list.items@, 1);
                        assert(list@ =~= seq![ValModel::Text("ok"@), vals[0]]);
                    }
                    Evaluation::List(list)
                },
            },
        }
    
}

fn prim_raise(id: &String, param: &ListEval) -> (r: Evaluation)
    requires
        id@ == "raise"@,
    ensures
        r@ == spec_prim_raise(id@, param@).value,
        spec_prim_raise(id@, param@).out == Seq::<Seq<char>>::empty(),
{
    proof {
        lemma_vals_model_len(param.items@);
        if param.items@.len() > 0 {
            lemma_vals_model_index(param.items@, 0);
        }
        if param.items@.len() > 1 {
            lemma_vals_model_index(param.items@, 1);
        }
        if param.items@.len() > 2 {
            lemma_vals_model_index(param.items@, 2);
        }
    }
    let ghost vals = param@;
        match expect_args(1, param, id) {
            Some(e) => e,
            None => {
                let e = Exception {
                    flavor: ExceptionType::Error,
                    payload: Box::new(param.items[0].clone()),
                    stack: Vec::new(),
                };
                proof {
                    assert(e@.stack =~= Seq::<Seq<char>>::empty());
                }
                Evaluation::Exception(e)
            },
        }
    
}

fn prim_early_return(id: &String, param: &ListEval) -> (r: Evaluation)
    requires
        id@ == "~"@,
    ensures
        r@ == spec_prim_early_return(id@, param@).value,
        spec_prim_early_return(id@, param@).out == Seq::<Seq<char>>::empty(),
{
    proof {
        lemma_vals_model_len(param.items@);
        if param.items@.len() > 0 {
            lemma_vals_model_index(param.items@, 0);
        }
        if param.items@.len() > 1 {
            lemma_vals_model_index(param.items@, 1);
        }
        if param.items@.len() > 2 {
            lemma_vals_model_index(param.items@, 2);
        }
    }
    let ghost vals = param@;
        match expect_args(1, param, id) {
            Some(e) => e,
            None => {
                let e = Exception {
                    flavor: ExceptionType::Return,
                    payload: Box::new(param.items[0].clone()),
                    stack: Vec::new(),
                };
                proof {
                    assert(e@.stack =~= Seq::<Seq<char>>::empty());
                }
                Evaluation::Exception(e)
            },
        }
    
}

fn bool_result(b: bool) -> (r: Evaluation)
    ensures
        r@ == bool_val(b),
{
    if b {
        Evaluation::True
    } else {
        Evaluation::False
    }
}

fn numeric_type_error(id: &String) -> (r: Evaluation)
    ensures
        r@ == exn_val(ExceptionType::TypeError, id@, "numeric arguments expected"@),
{
    crate::evaluator::exception(
        ExceptionType::TypeError,
        id,
        String::from_str("numeric arguments expected"),
    )
}

/// Removing the first element of a value vector drops the first model.
proof fn lemma_vals_remove_first(pre: Seq<Evaluation>, post: Seq<Evaluation>)
    requires
        pre.len() > 0,
        post == pre.remove(0),
    ensures
        crate::encoding::vals_model(post) == crate::encoding::vals_model(pre).drop_first(),
{
    lemma_vals_model_len(pre);
    lemma_vals_model_len(post);
    assert forall|j: int| 0 <= j < post.len() implies crate::encoding::vals_model(post)[j]
        == crate::encoding::vals_model(pre).drop_first()[j] by {
        lemma_vals_model_index(post, j);
        lemma_vals_model_index(pre, j + 1);
        assert(post[j] == pre[j + 1]);
    }
    assert(crate::encoding::vals_model(post) =~= crate::encoding::vals_model(pre).drop_first());
}

/// Appending value vectors concatenates their models.
proof fn lemma_vals_append(a: Seq<Evaluation>, b: Seq<Evaluation>)
    ensures
        crate::encoding::vals_model(a + b) == crate::encoding::vals_model(a)
            + crate::encoding::vals_model(b),
{
    lemma_vals_model_len(a);
    lemma_vals_model_len(b);
    lemma_vals_model_len(a + b);
    assert forall|j: int| 0 <= j < a.len() + b.len() implies crate::encoding::vals_model(a + b)[j]
        == (crate::encoding::vals_model(a) + crate::encoding::vals_model(b))[j] by {
        lemma_vals_model_index(a + b, j);
        if j < a.len() {
            lemma_vals_model_index(a, j);
            assert((a + b)[j] == a[j]);
        } else {
            lemma_vals_model_index(b, j - a.len());
            assert((a + b)[j] == b[j - a.len()]);
        }
    }
    assert(crate::encoding::vals_model(a + b) =~= crate::encoding::vals_model(a)
        + crate::encoding::vals_model(b));
}

/// The substring primitive's happy path: character-indexed, clamped.
fn substr_exec(s: &String, start: i64, len: i64) -> (r: Evaluation)
    ensures
        r@ == ValModel::Text(substr_model(s@, start as int, len as int)),
{
    let text = s.as_str();
    let slen = text.unicode_len();
    if start < 0 || start as u64 >= slen as u64 {
        let r = String::new();
        proof {
            assert(r@ =~= substr_model(s@, start as int, len as int));
        }
        Evaluation::Text(r)
    } else {
        let st = start as u64;
        let end64: u64 = if len < 0 {
            slen as u64
        } else {
            let e = st + (len as u64);
            if e >= slen as u64 {
                slen as u64
            } else {
                e
            }
        };
        let from: usize = st as usize;
        let to: usize = end64 as usize;
        let sub = text.substring_char(from, to);
        Evaluation::Text(String::from_str(sub))
    }
}

} // verus!

//! The mathematical model of evaluation: a big-step interpreter over the
//! ghost models, bounded by fuel (one unit per function-call boundary), that
//! the executable evaluator is proved to follow exactly.
//!
//! Frames form a strict stack.  Evaluating an expression can only extend the
//! innermost frame's bindings; a block pushes one frame and pops it on every
//! exit path, so a block leaves the stack exactly as it found it (the lemmas
//! at the end prove this discipline once and for all).

use vstd::prelude::*;

use crate::encoding::{
    expr_size,
    exprs_size,
    lemma_exprs_size_element,
    ExceptionType,
    ExnModel,
    ExprModel,
    FrameModel,
    ValModel,
};
use crate::primitives::{arg_error_val, exn_val, spec_primitive};

verus! {

/// The outcome of evaluating one expression or one block: the frame stack
/// after, the lines printed, and the value, or `None` when the fuel ran out
/// (the model of the host's resources running out).
pub struct EvalOut {
    pub stack: Seq<FrameModel>,
    pub out: Seq<Seq<char>>,
    pub result: Option<ValModel>,
}

/// The outcome of evaluating a sequence of expressions into a list of values.
pub struct ListOut {
    pub stack: Seq<FrameModel>,
    pub out: Seq<Seq<char>>,
    pub result: Option<Seq<ValModel>>,
}

pub open spec fn value_out(stack: Seq<FrameModel>, v: ValModel) -> EvalOut {
    EvalOut { stack, out: Seq::empty(), result: Some(v) }
}

// ---------------------------------------------------------------------------
// Binding lookup
// ---------------------------------------------------------------------------

/// Looks an identifier up within one frame's bindings.
pub open spec fn frame_lookup(
    bs: Seq<(Seq<char>, Seq<ExprModel>)>,
    id: Seq<char>,
) -> Option<Seq<ExprModel>>
    decreases bs.len(),
{
    if bs.len() == 0 {
        None
    } else if bs[0].0 == id {
        Some(bs[0].1)
    } else {
        frame_lookup(bs.drop_first(), id)
    }
}

/// Looks an identifier up through the frames, innermost first.
pub open spec fn stack_lookup(stack: Seq<FrameModel>, id: Seq<char>) -> Option<Seq<ExprModel>>
    decreases stack.len(),
{
    if stack.len() == 0 {
        None
    } else {
        match frame_lookup(stack.last().bindings, id) {
            Some(b) => Some(b),
            None => stack_lookup(stack.drop_last(), id),
        }
    }
}

/// A run of underscores, addressing an ancestor frame's argument list.
pub open spec fn is_underscores(id: Seq<char>) -> bool {
    id.len() >= 1 && forall|i: int| 0 <= i < id.len() ==> id[i] == '_'
}

/// A frame binds each identifier at most once.
pub open spec fn bindings_unique(bs: Seq<(Seq<char>, Seq<ExprModel>)>) -> bool {
    forall|i: int, j: int| 0 <= i < j < bs.len() ==> (#[trigger] bs[i]).0 != (#[trigger] bs[j]).0
}

pub proof fn lemma_frame_lookup_none_means_absent(
    bs: Seq<(Seq<char>, Seq<ExprModel>)>,
    id: Seq<char>,
)
    requires
        frame_lookup(bs, id) is None,
    ensures
        forall|i: int| 0 <= i < bs.len() ==> (#[trigger] bs[i]).0 != id,
    decreases bs.len(),
{
    if bs.len() > 0 {
        lemma_frame_lookup_none_means_absent(bs.drop_first(), id);
        assert forall|i: int| 0 <= i < bs.len() implies (#[trigger] bs[i]).0 != id by {
            if i > 0 {
                assert(bs[i] == bs.drop_first()[i - 1]);
            }
        }
    }
}

/// Evaluating a definition keeps the innermost frame's bindings unique:
/// a new identifier is only ever bound when the frame does not bind it yet.
pub proof fn lemma_eval_def_keeps_unique(
    stack: Seq<FrameModel>,
    id: Seq<char>,
    body: Seq<ExprModel>,
)
    requires
        stack.len() >= 1,
        bindings_unique(stack.last().bindings),
    ensures
        bindings_unique(eval_def(stack, id, body).stack.last().bindings),
{
    let frame = stack.last();
    if frame_lookup(frame.bindings, id) is Some {
    } else {
        lemma_frame_lookup_none_means_absent(frame.bindings, id);
        let pushed = frame.bindings.push((id, body));
        assert forall|i: int, j: int| 0 <= i < j < pushed.len() implies (#[trigger] pushed[i]).0
            != (#[trigger] pushed[j]).0 by {
            if j < pushed.len() - 1 {
                assert(pushed[i] == frame.bindings[i] && pushed[j] == frame.bindings[j]);
            } else {
                assert(pushed[i] == frame.bindings[i] && pushed[j] == (id, body));
            }
        }
    }
}

// ---------------------------------------------------------------------------
// The interpreter
// ---------------------------------------------------------------------------

pub open spec fn eval_expr(fuel: nat, stack: Seq<FrameModel>, e: ExprModel) -> EvalOut
    decreases fuel, expr_size(e), 0int,
{
    match e {
        ExprModel::True => value_out(stack, ValModel::True),
        ExprModel::False => value_out(stack, ValModel::False),
        ExprModel::Integer(x) => value_out(stack, ValModel::Integer(x)),
        ExprModel::Float(x) => value_out(stack, ValModel::Float(x)),
        ExprModel::Text(s) => value_out(stack, ValModel::Text(s)),
        ExprModel::List(items) => {
            let lo = eval_exprs(fuel, stack, items);
            EvalOut {
                stack: lo.stack,
                out: lo.out,
                result: match lo.result {
                    Some(vs) => Some(ValModel::List(vs)),
                    None => None,
                },
            }
        },
        ExprModel::Call { id, args } => eval_call(fuel, stack, id, args),
        ExprModel::Definition { id, body } => eval_def(stack, id, body),
    }
}

/// Evaluating a definition binds the identifier in the innermost frame, or
/// yields the redefinition exception when the frame already binds it.  The
/// evaluator only runs inside at least one frame; with no frame at all the
/// outcome is left unspecified (the executable code requires a frame).
pub open spec fn eval_def(stack: Seq<FrameModel>, id: Seq<char>, body: Seq<ExprModel>) -> EvalOut {
    if stack.len() == 0 {
        arbitrary()
    } else {
        let frame = stack.last();
        if frame_lookup(frame.bindings, id) is Some {
            value_out(
                stack,
                exn_val(ExceptionType::RedefError, ""@, "attempt to redefine "@ + id),
            )
        } else {
            let updated = FrameModel {
                bindings: frame.bindings.push((id, body)),
                param: frame.param,
            };
            value_out(
                stack.update(stack.len() - 1, updated),
                ValModel::Function(body),
            )
        }
    }
}

/// Evaluates expressions left to right into a list of values.  An exception
/// value among them is kept as ordinary data; only running out of fuel stops
/// the walk.
pub open spec fn eval_exprs(fuel: nat, stack: Seq<FrameModel>, es: Seq<ExprModel>) -> ListOut
    decreases fuel, exprs_size(es), 1int,
{
    if es.len() == 0 {
        ListOut { stack, out: Seq::empty(), result: Some(Seq::empty()) }
    } else {
        proof {
            lemma_exprs_size_element(es, 0);
        }
        let r0 = eval_expr(fuel, stack, es[0]);
        match r0.result {
            None => ListOut { stack: r0.stack, out: r0.out, result: None },
            Some(v) => {
                let rest = eval_exprs(fuel, r0.stack, es.drop_first());
                ListOut {
                    stack: rest.stack,
                    out: r0.out + rest.out,
                    result: match rest.result {
                        Some(vs) => Some(seq![v] + vs),
                        None => None,
                    },
                }
            },
        }
    }
}

/// Resolves and performs one call: the arguments are evaluated left to right
/// in the current frame, then the identifier is resolved against, in order,
/// the frame bindings (innermost first), the comma apply form, underscore
/// addressing, and finally the primitive catalog.
pub open spec fn eval_call(
    fuel: nat,
    stack: Seq<FrameModel>,
    id: Seq<char>,
    args: Seq<ExprModel>,
) -> EvalOut
    decreases fuel, exprs_size(args), 2int,
{
    let la = eval_exprs(fuel, stack, args);
    match la.result {
        None => EvalOut { stack: la.stack, out: la.out, result: None },
        Some(vals) => match stack_lookup(la.stack, id) {
            Some(body) => {
                if fuel == 0 {
                    EvalOut { stack: la.stack, out: la.out, result: None }
                } else {
                    let bo = eval_block((fuel - 1) as nat, la.stack, vals, id, body);
                    EvalOut { stack: bo.stack, out: la.out + bo.out, result: bo.result }
                }
            },
            None => {
                if id == ","@ {
                    eval_apply(fuel, la.stack, la.out, id, args, vals)
                } else if id.len() >= 1 && id[0] == '_' {
                    if !is_underscores(id) {
                        EvalOut {
                            stack: la.stack,
                            out: la.out,
                            result: Some(
                                exn_val(
                                    ExceptionType::TypeError,
                                    id,
                                    "function is not defined in scope"@,
                                ),
                            ),
                        }
                    } else if id.len() > la.stack.len() {
                        EvalOut {
                            stack: la.stack,
                            out: la.out,
                            result: Some(
                                exn_val(
                                    ExceptionType::TypeError,
                                    id,
                                    "attempt to reach out of main scope"@,
                                ),
                            ),
                        }
                    } else {
                        EvalOut {
                            stack: la.stack,
                            out: la.out,
                            result: Some(
                                ValModel::List(la.stack[la.stack.len() - id.len()].param),
                            ),
                        }
                    }
                } else {
                    let p = spec_primitive(id, vals);
                    EvalOut { stack: la.stack, out: la.out + p.out, result: Some(p.value) }
                }
            },
        },
    }
}

/// The comma apply form: exactly two arguments, the first a function value,
/// the second syntactically a list literal whose evaluated items become the
/// function's arguments.
pub open spec fn eval_apply(
    fuel: nat,
    stack: Seq<FrameModel>,
    sofar: Seq<Seq<char>>,
    id: Seq<char>,
    args: Seq<ExprModel>,
    vals: Seq<ValModel>,
) -> EvalOut
    decreases fuel, exprs_size(args), 1int,
{
    if vals.len() != 2 {
        EvalOut { stack, out: sofar, result: Some(arg_error_val(id, 2, vals.len() as int)) }
    } else {
        match vals[0] {
            ValModel::Exception(_) => EvalOut { stack, out: sofar, result: Some(vals[0]) },
            ValModel::Function(body) => {
                if args[1] is List {
                    match vals[1] {
                        ValModel::List(items) => {
                            if fuel == 0 {
                                EvalOut { stack, out: sofar, result: None }
                            } else {
                                let bo = eval_block((fuel - 1) as nat, stack, items, id, body);
                                EvalOut { stack: bo.stack, out: sofar + bo.out, result: bo.result }
                            }
                        },
                        _ => EvalOut {
                            stack,
                            out: sofar,
                            result: Some(
                                exn_val(
                                    ExceptionType::TypeError,
                                    id,
                                    "list expected as second argument"@,
                                ),
                            ),
                        },
                    }
                } else {
                    EvalOut {
                        stack,
                        out: sofar,
                        result: Some(
                            exn_val(
                                ExceptionType::TypeError,
                                id,
                                "list expected as second argument"@,
                            ),
                        ),
                    }
                }
            },
            _ => EvalOut {
                stack,
                out: sofar,
                result: Some(
                    exn_val(ExceptionType::TypeError, id, "function expected as first argument"@),
                ),
            },
        }
    }
}

/// Runs a block as a call frame: pushes a fresh frame owning the evaluated
/// arguments, evaluates the expressions in order, and pops the frame on
/// every exit path.
pub open spec fn eval_block(
    fuel: nat,
    stack: Seq<FrameModel>,
    param: Seq<ValModel>,
    context: Seq<char>,
    es: Seq<ExprModel>,
) -> EvalOut
    decreases fuel, exprs_size(es), 4int,
{
    eval_block_rest(
        fuel,
        stack.push(FrameModel { bindings: Seq::empty(), param }),
        context,
        es,
        ValModel::False,
    )
}

/// Evaluates the remaining expressions of a block.  The block's value is its
/// last expression's value (`false` for an empty block); a `Return`-flavored
/// exception ends the block early with its unwrapped payload, and any other
/// exception is re-thrown with this frame's identifier appended to its
/// trace.  The frame is popped on every exit path.
pub open spec fn eval_block_rest(
    fuel: nat,
    stack: Seq<FrameModel>,
    context: Seq<char>,
    es: Seq<ExprModel>,
    acc: ValModel,
) -> EvalOut
    decreases fuel, exprs_size(es), 3int,
{
    if es.len() == 0 {
        EvalOut { stack: stack.drop_last(), out: Seq::empty(), result: Some(acc) }
    } else {
        proof {
            lemma_exprs_size_element(es, 0);
        }
        let r0 = eval_expr(fuel, stack, es[0]);
        match r0.result {
            None => EvalOut { stack: r0.stack.drop_last(), out: r0.out, result: None },
            Some(v) => match v {
                ValModel::Exception(x) => {
                    if x.flavor is Return {
                        EvalOut {
                            stack: r0.stack.drop_last(),
                            out: r0.out,
                            result: Some(*x.payload),
                        }
                    } else {
                        EvalOut {
                            stack: r0.stack.drop_last(),
                            out: r0.out,
                            result: Some(
                                ValModel::Exception(
                                    ExnModel {
                                        flavor: x.flavor,
                                        payload: x.payload,
                                        stack: x.stack.push(context),
                                    },
                                ),
                            ),
                        }
                    }
                },
                _ => {
                    let rest = eval_block_rest(fuel, r0.stack, context, es.drop_first(), v);
                    EvalOut { stack: rest.stack, out: r0.out + rest.out, result: rest.result }
                },
            },
        }
    }
}

/// A whole program: the root block run against an empty frame stack with no
/// arguments and the empty calling context.
pub open spec fn eval_program(fuel: nat, es: Seq<ExprModel>) -> EvalOut {
    eval_block(fuel, Seq::empty(), Seq::empty(), ""@, es)
}

// ---------------------------------------------------------------------------
// The frame discipline
// ---------------------------------------------------------------------------

/// What evaluating an expression may do to the frame stack: nothing, except
/// appending bindings to the innermost frame.
pub open spec fn frames_preserved(stack: Seq<FrameModel>, after: Seq<FrameModel>) -> bool {
    &&& after.len() == stack.len()
    &&& forall|i: int| 0 <= i < stack.len() - 1 ==> after[i] == stack[i]
    &&& stack.len() >= 1 ==> after.last().param == stack.last().param
        && stack.last().bindings.is_prefix_of(after.last().bindings)
}

pub proof fn lemma_frames_preserved_refl(a: Seq<FrameModel>)
    ensures
        frames_preserved(a, a),
{
    if a.len() >= 1 {
        assert(a.last().bindings =~= a.last().bindings.subrange(0, a.last().bindings.len() as int));
    }
}

pub proof fn lemma_frames_preserved_trans(a: Seq<FrameModel>, b: Seq<FrameModel>, c: Seq<FrameModel>)
    requires
        frames_preserved(a, b),
        frames_preserved(b, c),
    ensures
        frames_preserved(a, c),
{
    if a.len() >= 1 {
        let x = a.last().bindings;
        let y = b.last().bindings;
        let z = c.last().bindings;
        assert(x =~= z.subrange(0, x.len() as int)) by {
            assert(x =~= y.subrange(0, x.len() as int));
            assert(y =~= z.subrange(0, y.len() as int));
        }
    }
}

/// Dropping the innermost frame of two stacks related by the discipline
/// yields the same stack.
pub proof fn lemma_frames_preserved_drop_last(a: Seq<FrameModel>, b: Seq<FrameModel>)
    requires
        a.len() >= 1,
        frames_preserved(a, b),
    ensures
        b.drop_last() == a.drop_last(),
{
    assert(b.drop_last() =~= a.drop_last());
}

/// Evaluating one expression preserves the frame discipline.
pub proof fn lemma_eval_expr_frames(fuel: nat, stack: Seq<FrameModel>, e: ExprModel)
    requires
        stack.len() >= 1,
    ensures
        frames_preserved(stack, eval_expr(fuel, stack, e).stack),
    decreases fuel, expr_size(e), 0int,
{
    match e {
        ExprModel::List(items) => {
            lemma_eval_exprs_frames(fuel, stack, items);
        },
        ExprModel::Call { id, args } => {
            lemma_eval_call_frames(fuel, stack, id, args);
        },
        ExprModel::Definition { id, body } => {
            let frame = stack.last();
            if frame_lookup(frame.bindings, id) is Some {
                lemma_frames_preserved_refl(stack);
            } else {
                let updated = FrameModel {
                    bindings: frame.bindings.push((id, body)),
                    param: frame.param,
                };
                let after = stack.update(stack.len() - 1, updated);
                assert(frame.bindings =~= after.last().bindings.subrange(
                    0,
                    frame.bindings.len() as int,
                ));
            }
        },
        _ => {
            lemma_frames_preserved_refl(stack);
        },
    }
}

/// Evaluating an argument list preserves the frame discipline.
pub proof fn lemma_eval_exprs_frames(fuel: nat, stack: Seq<FrameModel>, es: Seq<ExprModel>)
    requires
        stack.len() >= 1,
    ensures
        frames_preserved(stack, eval_exprs(fuel, stack, es).stack),
    decreases fuel, exprs_size(es), 1int,
{
    if es.len() == 0 {
        lemma_frames_preserved_refl(stack);
    } else {
        lemma_exprs_size_element(es, 0);
        lemma_eval_expr_frames(fuel, stack, es[0]);
        let r0 = eval_expr(fuel, stack, es[0]);
        match r0.result {
            None => {},
            Some(v) => {
                lemma_eval_exprs_frames(fuel, r0.stack, es.drop_first());
                lemma_frames_preserved_trans(
                    stack,
                    r0.stack,
                    eval_exprs(fuel, r0.stack, es.drop_first()).stack,
                );
            },
        }
    }
}

/// Resolving and performing a call preserves the frame discipline.
pub proof fn lemma_eval_call_frames(
    fuel: nat,
    stack: Seq<FrameModel>,
    id: Seq<char>,
    args: Seq<ExprModel>,
)
    requires
        stack.len() >= 1,
    ensures
        frames_preserved(stack, eval_call(fuel, stack, id, args).stack),
    decreases fuel, exprs_size(args), 2int,
{
    lemma_eval_exprs_frames(fuel, stack, args);
    let la = eval_exprs(fuel, stack, args);
    match la.result {
        None => {},
        Some(vals) => match stack_lookup(la.stack, id) {
            Some(body) => {
                if fuel == 0 {
                } else {
                    lemma_eval_block_restores((fuel - 1) as nat, la.stack, vals, id, body);
                }
            },
            None => {
                if id == ","@ {
                    if vals.len() != 2 {
                    } else {
                        match vals[0] {
                            ValModel::Function(body) => {
                                if args[1] is List {
                                    match vals[1] {
                                        ValModel::List(items) => {
                                            if fuel != 0 {
                                                lemma_eval_block_restores(
                                                    (fuel - 1) as nat,
                                                    la.stack,
                                                    items,
                                                    id,
                                                    body,
                                                );
                                            }
                                        },
                                        _ => {},
                                    }
                                }
                            },
                            _ => {},
                        }
                    }
                }
            },
        },
    }
}

/// A block leaves the frame stack exactly as it found it: every binding made
/// while it ran dies with its frame, on normal and on abnormal exit alike.
pub proof fn lemma_eval_block_restores(
    fuel: nat,
    stack: Seq<FrameModel>,
    param: Seq<ValModel>,
    context: Seq<char>,
    es: Seq<ExprModel>,
)
    ensures
        eval_block(fuel, stack, param, context, es).stack == stack,
    decreases fuel, exprs_size(es), 4int,
{
    let pushed = stack.push(FrameModel { bindings: Seq::empty(), param });
    lemma_eval_block_rest_frames(fuel, pushed, context, es, ValModel::False);
    assert(pushed.drop_last() =~= stack);
}

/// Evaluating the rest of a block pops exactly the frame it was given.
pub proof fn lemma_eval_block_rest_frames(
    fuel: nat,
    stack: Seq<FrameModel>,
    context: Seq<char>,
    es: Seq<ExprModel>,
    acc: ValModel,
)
    requires
        stack.len() >= 1,
    ensures
        eval_block_rest(fuel, stack, context, es, acc).stack == stack.drop_last(),
    decreases fuel, exprs_size(es), 3int,
{
    if es.len() == 0 {
    } else {
        lemma_exprs_size_element(es, 0);
        lemma_eval_expr_frames(fuel, stack, es[0]);
        let r0 = eval_expr(fuel, stack, es[0]);
        lemma_frames_preserved_drop_last(stack, r0.stack);
        match r0.result {
            None => {},
            Some(v) => match v {
                ValModel::Exception(x) => {},
                _ => {
                    lemma_eval_block_rest_frames(fuel, r0.stack, context, es.drop_first(), v);
                },
            },
        }
    }
}

// ---------------------------------------------------------------------------
// Determinism
// ---------------------------------------------------------------------------

/// Evaluation is a function of its inputs: running the same block against the
/// same frame stack, arguments and fuel twice yields identical outcomes —
/// the same value, the same final stack and the same output, run for run.
pub proof fn lemma_eval_deterministic(
    fuel: nat,
    stack: Seq<FrameModel>,
    param: Seq<ValModel>,
    context: Seq<char>,
    es: Seq<ExprModel>,
    r1: EvalOut,
    r2: EvalOut,
)
    requires
        r1 == eval_block(fuel, stack, param, context, es),
        r2 == eval_block(fuel, stack, param, context, es),
    ensures
        r1 == r2,
{
}

} // verus!

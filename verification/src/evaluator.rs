//! The evaluator: walks the syntax tree against a stack of call frames,
//! producing a value or a propagated exception, exactly as the model in
//! `semantics` says.  Evaluation is bounded by fuel, one unit per
//! function-call boundary; running out of fuel models the host running out
//! of resources and yields `None` rather than a language-level error.

use vstd::prelude::*;

use crate::encoding::{
    bindings_model,
    expr_size,
    exprs_model,
    exprs_size,
    lemma_exprs_model_index,
    lemma_exprs_model_len,
    lemma_exprs_size_element,
    lemma_vals_model_index,
    lemma_vals_model_len,
    out_model,
    stack_model,
    vals_model,
    Block,
    Call,
    Definition,
    Evaluation,
    Exception,
    ExceptionType,
    ExprModel,
    Expression,
    FrameModel,
    Function,
    List,
    ListEval,
    Scope,
    ValModel,
};
use crate::primitives::{exn_val, str_is};
use crate::semantics::{
    eval_block,
    eval_block_rest,
    eval_call,
    eval_def,
    eval_expr,
    eval_exprs,
    eval_program,
    frame_lookup,
    is_underscores,
    lemma_eval_expr_frames,
    lemma_eval_exprs_frames,
    stack_lookup,
};

verus! {

/// Builds an exception value raised by the interpreter itself: the message is
/// the payload and the offending identifier seeds the stack.
pub fn exception(flavor: ExceptionType, id: &String, msg: String) -> (r: Evaluation)
    ensures
        r@ == exn_val(flavor, id@, msg@),
{
    let mut stack: Vec<String> = Vec::new();
    stack.push(id.clone());
    let e = Exception { flavor, payload: Box::new(Evaluation::Text(msg)), stack };
    proof {
        assert(e@.stack =~= seq![id@]);
    }
    Evaluation::Exception(e)
}

// ---------------------------------------------------------------------------
// Binding lookup
// ---------------------------------------------------------------------------

/// Finds a binding within one frame, scanning from the given position.
fn frame_find(bindings: &Vec<(String, Function)>, id: &String, start: usize) -> (r: Option<
    Function,
>)
    requires
        start <= bindings.len(),
    ensures
        match frame_lookup(bindings_model(bindings@).skip(start as int), id@) {
            None => r is None,
            Some(b) => r matches Some(f) && f@ == b,
        },
    decreases bindings.len() - start,
{
    let ghost bm = bindings_model(bindings@);
    if start == bindings.len() {
        proof {
            assert(bm.skip(start as int) =~= Seq::<(Seq<char>, Seq<ExprModel>)>::empty());
        }
        None
    } else {
        proof {
            assert(bm.skip(start as int)[0] == bm[start as int]);
        }
        if bindings[start].0 == *id {
            Some(bindings[start].1.clone())
        } else {
            proof {
                assert(bm.skip(start as int).drop_first() =~= bm.skip(start + 1));
            }
            frame_find(bindings, id, start + 1)
        }
    }
}

/// Finds a binding in the frames below `end`, innermost first.
fn stack_find(scope: &Vec<Scope>, id: &String, end: usize) -> (r: Option<Function>)
    requires
        end <= scope.len(),
    ensures
        match stack_lookup(stack_model(scope@).subrange(0, end as int), id@) {
            None => r is None,
            Some(b) => r matches Some(f) && f@ == b,
        },
    decreases end,
{
    let ghost sm = stack_model(scope@);
    if end == 0 {
        proof {
            assert(sm.subrange(0, 0).len() == 0);
        }
        None
    } else {
        let ghost sub = sm.subrange(0, end as int);
        proof {
            assert(sub.last() == sm[end - 1]);
            assert(bindings_model(scope@[end - 1].bindings@).skip(0) =~= sub.last().bindings);
        }
        match frame_find(&scope[end - 1].bindings, id, 0) {
            Some(f) => Some(f),
            None => {
                proof {
                    assert(sub.drop_last() =~= sm.subrange(0, end - 1));
                }
                stack_find(scope, id, end - 1)
            },
        }
    }
}

// ---------------------------------------------------------------------------
// Evaluation
// ---------------------------------------------------------------------------

impl Definition {
    /// Binds this definition's identifier in the innermost frame, yielding
    /// the function value, or the redefinition exception when the frame
    /// already binds it.
    pub fn evaluate(&self, scope: &mut Vec<Scope>) -> (r: Evaluation)
        requires
            old(scope)@.len() >= 1,
        ensures
            ({
                let d = eval_def(stack_model(old(scope)@), self.id@, self.block@);
                &&& stack_model(final(scope)@) == d.stack
                &&& d.result == Some(r@)
            }),
    {
        let ghost stack0 = stack_model(scope@);
        let popped = scope.pop();
        match popped {
            Some(mut top) => {
                proof {
                    assert(stack0.last() == crate::encoding::scope_model(top));
                    assert(bindings_model(top.bindings@).skip(0) =~= bindings_model(top.bindings@));
                }
                match frame_find(&top.bindings, &self.id, 0) {
                    Some(_) => {
                        scope.push(top);
                        let mut msg = String::from_str("attempt to redefine ");
                        msg.append(self.id.as_str());
                        let empty = String::new();
                        proof {
                            reveal_strlit("");
                            assert(empty@ =~= ""@);
                            assert(stack_model(scope@) =~= stack0);
                        }
                        exception(ExceptionType::RedefError, &empty, msg)
                    },
                    None => {
                        let func = Function { block: self.block.clone() };
                        top.bindings.push((self.id.clone(), func.clone()));
                        scope.push(top);
                        proof {
                            let updated = FrameModel {
                                bindings: stack0.last().bindings.push((self.id@, self.block@)),
                                param: stack0.last().param,
                            };
                            assert(bindings_model(top.bindings@) =~= updated.bindings);
                            assert(stack_model(scope@) =~= stack0.update(
                                stack0.len() - 1,
                                updated,
                            ));
                        }
                        Evaluation::Function(func)
                    },
                }
            },
            None => {
                proof {
                    assert(false);
                }
                Evaluation::False
            },
        }
    }
}

impl Expression {
    /// Evaluates one expression in the current frame.
    pub fn evaluate(&self, scope: &mut Vec<Scope>, out: &mut Vec<String>, fuel: u64) -> (r: Option<
        Evaluation,
    >)
        requires
            old(scope)@.len() >= 1,
        ensures
            ({
                let eo = eval_expr(fuel as nat, stack_model(old(scope)@), self@);
                &&& stack_model(final(scope)@) == eo.stack
                &&& out_model(final(out)@) == out_model(old(out)@) + eo.out
                &&& match r {
                    Some(v) => eo.result == Some(v@),
                    None => eo.result is None,
                }
            }),
        decreases fuel, expr_size(self@), 0int,
    {
        proof {
            assert(out_model(out@) + Seq::<Seq<char>>::empty() =~= out_model(out@));
        }
        match self {
            Expression::True => Some(Evaluation::True),
            Expression::False => Some(Evaluation::False),
            Expression::Integer(x) => Some(Evaluation::Integer(*x)),
            Expression::Float(x) => Some(Evaluation::Float(*x)),
            Expression::Text(s) => Some(Evaluation::Text(s.clone())),
            Expression::List(list) => match list.evaluate(scope, out, fuel) {
                Some(le) => Some(Evaluation::List(le)),
                None => None,
            },
            Expression::Call(call) => call.evaluate(scope, out, fuel),
            Expression::Definition(def) => Some(def.evaluate(scope)),
        }
    }
}

impl List {
    /// Evaluates the items left to right into a list value; exceptions among
    /// them are kept as ordinary data.
    pub fn evaluate(&self, scope: &mut Vec<Scope>, out: &mut Vec<String>, fuel: u64) -> (r: Option<
        ListEval,
    >)
        requires
            old(scope)@.len() >= 1,
        ensures
            ({
                let lo = eval_exprs(fuel as nat, stack_model(old(scope)@), self@);
                &&& stack_model(final(scope)@) == lo.stack
                &&& out_model(final(out)@) == out_model(old(out)@) + lo.out
                &&& match r {
                    Some(le) => lo.result == Some(le@),
                    None => lo.result is None,
                }
            }),
        decreases fuel, exprs_size(self@), 2int,
    {
        proof {
            assert(exprs_model(self.items@).skip(0) =~= exprs_model(self.items@));
        }
        match eval_items_from(&self.items, 0, scope, out, fuel) {
            Some(items) => Some(ListEval { items }),
            None => None,
        }
    }
}

/// Evaluates the expressions from the given position on, left to right.
fn eval_items_from(
    items: &Vec<Expression>,
    start: usize,
    scope: &mut Vec<Scope>,
    out: &mut Vec<String>,
    fuel: u64,
) -> (r: Option<Vec<Evaluation>>)
    requires
        start <= items.len(),
        old(scope)@.len() >= 1,
    ensures
        ({
            let lo = eval_exprs(
                fuel as nat,
                stack_model(old(scope)@),
                exprs_model(items@).skip(start as int),
            );
            &&& stack_model(final(scope)@) == lo.stack
            &&& out_model(final(out)@) == out_model(old(out)@) + lo.out
            &&& match r {
                Some(vs) => lo.result == Some(vals_model(vs@)),
                None => lo.result is None,
            }
        }),
    decreases fuel, exprs_size(exprs_model(items@).skip(start as int)), 1int,
{
    let ghost em = exprs_model(items@);
    let ghost stack0 = stack_model(scope@);
    proof {
        lemma_exprs_model_len(items@);
    }
    if start == items.len() {
        let vs: Vec<Evaluation> = Vec::new();
        proof {
            assert(em.skip(start as int) =~= Seq::<ExprModel>::empty());
            assert(vals_model(vs@) =~= Seq::<ValModel>::empty());
            assert(out_model(out@) + Seq::<Seq<char>>::empty() =~= out_model(out@));
        }
        Some(vs)
    } else {
        let ghost rest_es = em.skip(start as int);
        proof {
            lemma_exprs_model_index(items@, start as int);
            assert(rest_es[0] == em[start as int]);
            lemma_exprs_size_element(rest_es, 0);
        }
        let v_opt = items[start].evaluate(scope, out, fuel);
        match v_opt {
            None => None,
            Some(v) => {
                proof {
                    lemma_eval_expr_frames(fuel as nat, stack0, em[start as int]);
                    assert(rest_es.drop_first() =~= em.skip(start + 1));
                    assert(exprs_size(em.skip(start + 1)) < exprs_size(rest_es)) by {
                        lemma_exprs_size_element(rest_es, 0);
                    }
                }
                let ghost out1 = out@;
                let rest_opt = eval_items_from(items, start + 1, scope, out, fuel);
                match rest_opt {
                    None => {
                        proof {
                            let r0 = eval_expr(fuel as nat, stack0, rest_es[0]);
                            let rest = eval_exprs(fuel as nat, r0.stack, rest_es.drop_first());
                            assert(out_model(out@) =~= out_model(old(out)@) + (r0.out + rest.out));
                        }
                        None
                    },
                    Some(mut vs) => {
                        let ghost pre = vs@;
                        vs.insert(0, v);
                        proof {
                            let r0 = eval_expr(fuel as nat, stack0, rest_es[0]);
                            let rest = eval_exprs(fuel as nat, r0.stack, rest_es.drop_first());
                            assert(out_model(out@) =~= out_model(old(out)@) + (r0.out + rest.out));
                            lemma_vals_insert_front(pre, v);
                        }
                        Some(vs)
                    },
                }
            },
        }
    }
}

/// Whether the identifier is made of underscores alone.
fn all_underscores(id: &String) -> (r: bool)
    requires
        id@.len() >= 1,
    ensures
        r == is_underscores(id@),
{
    let s = id.as_str();
    let n = s.unicode_len();
    let mut j: usize = 0;
    while j < n
        invariant
            j <= n,
            n == id@.len(),
            s@ == id@,
            forall|k: int| 0 <= k < j ==> id@[k] == '_',
        decreases n - j,
    {
        if s.get_char(j) != '_' {
            return false;
        }
        j += 1;
    }
    true
}

/// Inserting a value at the front of a vector prepends its model.
proof fn lemma_vals_insert_front(s: Seq<Evaluation>, v: Evaluation)
    ensures
        vals_model(s.insert(0, v)) == seq![v@] + vals_model(s),
{
    let t = s.insert(0, v);
    lemma_vals_model_len(s);
    lemma_vals_model_len(t);
    assert forall|j: int| 0 <= j < t.len() implies vals_model(t)[j] == (seq![v@] + vals_model(
        s,
    ))[j] by {
        lemma_vals_model_index(t, j);
        if j > 0 {
            lemma_vals_model_index(s, j - 1);
            assert(t[j] == s[j - 1]);
        } else {
            assert(t[0] == v);
        }
    }
    assert(vals_model(t) =~= seq![v@] + vals_model(s));
}

impl Call {
    /// Resolves and performs this call: arguments first, then the bindings,
    /// the comma apply form, underscore addressing, and the primitives.
    pub fn evaluate(&self, scope: &mut Vec<Scope>, out: &mut Vec<String>, fuel: u64) -> (r: Option<
        Evaluation,
    >)
        requires
            old(scope)@.len() >= 1,
        ensures
            ({
                let co = eval_call(fuel as nat, stack_model(old(scope)@), self.id@, self.param@);
                &&& stack_model(final(scope)@) == co.stack
                &&& out_model(final(out)@) == out_model(old(out)@) + co.out
                &&& match r {
                    Some(v) => co.result == Some(v@),
                    None => co.result is None,
                }
            }),
        decreases fuel, exprs_size(self.param@), 3int,
    {
        let ghost stack0 = stack_model(scope@);
        let ghost la = eval_exprs(fuel as nat, stack0, self.param@);
        let ev_opt = self.param.evaluate(scope, out, fuel);
        proof {
            lemma_eval_exprs_frames(fuel as nat, stack0, self.param@);
        }
        let ev = match ev_opt {
            Some(le) => le,
            None => {
                return None;
            },
        };
        let ghost vals = ev@;
        let ghost out1 = out@;
        proof {
            assert(stack_model(scope@).subrange(0, stack_model(scope@).len() as int)
                =~= stack_model(scope@));
        }
        let found = stack_find(scope, &self.id, scope.len());
        match found {
            Some(f) => {
                if fuel == 0 {
                    return None;
                }
                let res = f.block.evaluate(scope, &ev, &self.id, out, fuel - 1);
                proof {
                    let bo = eval_block(
                        (fuel - 1) as nat,
                        la.stack,
                        vals,
                        self.id@,
                        f@,
                    );
                    assert(out_model(out@) =~= out_model(old(out)@) + (la.out + bo.out));
                }
                res
            },
            None => {
                proof {
                    assert(out_model(out@) + Seq::<Seq<char>>::empty() =~= out_model(out@));
                    lemma_vals_model_len(ev.items@);
                    if ev.items@.len() > 0 {
                        lemma_vals_model_index(ev.items@, 0);
                    }
                    if ev.items@.len() > 1 {
                        lemma_vals_model_index(ev.items@, 1);
                    }
                    lemma_exprs_model_len(self.param.items@);
                    if self.param.items@.len() > 1 {
                        lemma_exprs_model_index(self.param.items@, 1);
                    }
                }
                if str_is(&self.id, ",") {
                    match crate::primitives::expect_args(2, &ev, &self.id) {
                        Some(e) => Some(e),
                        None => match &ev.items[0] {
                            Evaluation::Exception(_) => Some(ev.items[0].clone()),
                            Evaluation::Function(f) => match &self.param.items[1] {
                                Expression::List(_) => match &ev.items[1] {
                                    Evaluation::List(il) => {
                                        if fuel == 0 {
                                            return None;
                                        }
                                        let res = f.block.evaluate(
                                            scope,
                                            il,
                                            &self.id,
                                            out,
                                            fuel - 1,
                                        );
                                        proof {
                                            let bo = eval_block(
                                                (fuel - 1) as nat,
                                                la.stack,
                                                il@,
                                                self.id@,
                                                f@,
                                            );
                                            assert(out_model(out@) =~= out_model(old(out)@) + (
                                            la.out + bo.out));
                                        }
                                        res
                                    },
                                    _ => Some(
                                        exception(
                                            ExceptionType::TypeError,
                                            &self.id,
                                            String::from_str("list expected as second argument"),
                                        ),
                                    ),
                                },
                                _ => Some(
                                    exception(
                                        ExceptionType::TypeError,
                                        &self.id,
                                        String::from_str("list expected as second argument"),
                                    ),
                                ),
                            },
                            _ => Some(
                                exception(
                                    ExceptionType::TypeError,
                                    &self.id,
                                    String::from_str("function expected as first argument"),
                                ),
                            ),
                        },
                    }
                } else {
                    let ids = self.id.as_str();
                    let n = ids.unicode_len();
                    if n >= 1 && ids.get_char(0) == '_' {
                        if !all_underscores(&self.id) {
                            return Some(
                                exception(
                                    ExceptionType::TypeError,
                                    &self.id,
                                    String::from_str("function is not defined in scope"),
                                ),
                            );
                        }
                        if n > scope.len() {
                            Some(
                                exception(
                                    ExceptionType::TypeError,
                                    &self.id,
                                    String::from_str("attempt to reach out of main scope"),
                                ),
                            )
                        } else {
                            let p = scope[scope.len() - n].param.clone();
                            Some(Evaluation::List(p))
                        }
                    } else {
                        let res = crate::primitives::system_functions(self.id.clone(), ev, out);
                        proof {
                            let p = crate::primitives::spec_primitive(self.id@, vals);
                            assert(out_model(out@) =~= out_model(old(out)@) + (la.out + p.out));
                        }
                        Some(res)
                    }
                }
            },
        }
    }
}

impl Block {
    /// Runs this block as a call frame: pushes a frame owning the evaluated
    /// arguments, evaluates the expressions in order, and pops the frame on
    /// every exit path.
    pub fn evaluate(
        &self,
        scope: &mut Vec<Scope>,
        param: &ListEval,
        context: &String,
        out: &mut Vec<String>,
        fuel: u64,
    ) -> (r: Option<Evaluation>)
        ensures
            ({
                let bo = eval_block(
                    fuel as nat,
                    stack_model(old(scope)@),
                    param@,
                    context@,
                    self@,
                );
                &&& stack_model(final(scope)@) == bo.stack
                &&& out_model(final(out)@) == out_model(old(out)@) + bo.out
                &&& match r {
                    Some(v) => bo.result == Some(v@),
                    None => bo.result is None,
                }
            }),
        decreases fuel, exprs_size(self@), 4int,
    {
        let ghost stack0 = stack_model(scope@);
        let frame = Scope { bindings: Vec::new(), param: param.clone() };
        proof {
            assert(crate::encoding::scope_model(frame).bindings
                =~= Seq::<(Seq<char>, Seq<ExprModel>)>::empty());
            assert(stack_model(scope@.push(frame)) =~= stack0.push(
                FrameModel { bindings: Seq::empty(), param: param@ },
            ));
            assert(exprs_model(self.expressions@).skip(0) =~= exprs_model(self.expressions@));
        }
        scope.push(frame);
        eval_block_from(&self.expressions, 0, scope, context, out, fuel, Evaluation::False)
    }
}

/// Evaluates the remaining expressions of a block and pops the frame on
/// every exit path.
fn eval_block_from(
    items: &Vec<Expression>,
    start: usize,
    scope: &mut Vec<Scope>,
    context: &String,
    out: &mut Vec<String>,
    fuel: u64,
    acc: Evaluation,
) -> (r: Option<Evaluation>)
    requires
        start <= items.len(),
        old(scope)@.len() >= 1,
    ensures
        ({
            let bo = eval_block_rest(
                fuel as nat,
                stack_model(old(scope)@),
                context@,
                exprs_model(items@).skip(start as int),
                acc@,
            );
            &&& stack_model(final(scope)@) == bo.stack
            &&& out_model(final(out)@) == out_model(old(out)@) + bo.out
            &&& match r {
                Some(v) => bo.result == Some(v@),
                None => bo.result is None,
            }
        }),
    decreases fuel, exprs_size(exprs_model(items@).skip(start as int)), 3int,
{
    let ghost em = exprs_model(items@);
    let ghost stack0 = stack_model(scope@);
    proof {
        lemma_exprs_model_len(items@);
        assert(out_model(out@) + Seq::<Seq<char>>::empty() =~= out_model(out@));
    }
    if start == items.len() {
        proof {
            assert(em.skip(start as int) =~= Seq::<ExprModel>::empty());
        }
        let popped = scope.pop();
        proof {
            assert(stack_model(scope@) =~= stack0.drop_last());
        }
        Some(acc)
    } else {
        let ghost rest_es = em.skip(start as int);
        proof {
            lemma_exprs_model_index(items@, start as int);
            assert(rest_es[0] == em[start as int]);
            lemma_exprs_size_element(rest_es, 0);
        }
        let v_opt = items[start].evaluate(scope, out, fuel);
        proof {
            lemma_eval_expr_frames(fuel as nat, stack0, em[start as int]);
        }
        let ghost r0 = eval_expr(fuel as nat, stack0, rest_es[0]);
        match v_opt {
            None => {
                let popped = scope.pop();
                proof {
                    assert(stack_model(scope@) =~= r0.stack.drop_last());
                }
                None
            },
            Some(ev) => match ev {
                Evaluation::Exception(x) => {
                    let popped = scope.pop();
                    proof {
                        assert(stack_model(scope@) =~= r0.stack.drop_last());
                    }
                    if matches!(&x.flavor, ExceptionType::Return) {
                        Some(*x.payload)
                    } else {
                        let mut rc = x;
                        rc.stack.push(context.clone());
                        proof {
                            assert(rc@.stack =~= x@.stack.push(context@));
                        }
                        Some(Evaluation::Exception(rc))
                    }
                },
                other => {
                    proof {
                        assert(rest_es.drop_first() =~= em.skip(start + 1));
                        assert(exprs_size(em.skip(start + 1)) < exprs_size(rest_es)) by {
                            lemma_exprs_size_element(rest_es, 0);
                        }
                    }
                    let res = eval_block_from(items, start + 1, scope, context, out, fuel, other);
                    proof {
                        let rest = eval_block_rest(
                            fuel as nat,
                            r0.stack,
                            context@,
                            rest_es.drop_first(),
                            r0.result->0,
                        );
                        assert(out_model(out@) =~= out_model(old(out)@) + (r0.out + rest.out));
                    }
                    res
                },
            },
        }
    }
}

/// Runs a whole program: the root block against an empty frame stack, with
/// the given fuel.  The first component is the program's value, or nothing
/// when the fuel ran out; the second is every line the program printed, in
/// order.
pub fn evaluate(block: &Block, fuel: u64) -> (r: (Option<Evaluation>, Vec<String>))
    ensures
        ({
            let eo = eval_program(fuel as nat, block@);
            &&& out_model(r.1@) == eo.out
            &&& match r.0 {
                Some(v) => eo.result == Some(v@),
                None => eo.result is None,
            }
        }),
{
    let mut scope: Vec<Scope> = Vec::new();
    let mut out: Vec<String> = Vec::new();
    let param = ListEval { items: Vec::new() };
    let ctx = String::new();
    proof {
        reveal_strlit("");
        assert(ctx@ =~= ""@);
        assert(stack_model(scope@) =~= Seq::<FrameModel>::empty());
        assert(param@ =~= Seq::<ValModel>::empty());
    }
    let r = block.evaluate(&mut scope, &param, &ctx, &mut out, fuel);
    proof {
        let eo = eval_program(fuel as nat, block@);
        assert(out_model(out@) =~= eo.out);
    }
    (r, out)
}

} // verus!

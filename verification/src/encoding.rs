//! The internal representation of the language: tokens, syntax trees and
//! runtime values, together with the mathematical models that the
//! specifications are stated over.

use vstd::prelude::*;

verus! {

// ---------------------------------------------------------------------------
// Tokens
// ---------------------------------------------------------------------------

/// Maps a position in the source character sequence to its 1-based line
/// number and to the text of that line, for diagnostics.
#[derive(Debug)]
pub struct LineLookup {
    pub lnums: Vec<usize>,
    pub lines: Vec<String>,
}

#[derive(Debug)]
pub struct Token {
    pub value: TokenValue,
    pub lnum: isize,
    pub line: String,
}

/// One lexical token.  A float literal is carried as the bit pattern of the
/// 64-bit IEEE value it denotes, so that the tree stays within plain data.
#[derive(Debug)]
pub enum TokenValue {
    Colon,
    Semicolon,
    OpenBracket,
    CloseBracket,
    ID(String),
    Integer(i64),
    Float(u64),
    Text(String),
    True,
    False,
    EOF,
}

// ---------------------------------------------------------------------------
// Syntax trees
// ---------------------------------------------------------------------------

/// An ordered sequence of expressions; the body of a function or the whole
/// program.  Its value is the value of its last expression.
#[derive(Debug)]
pub struct Block {
    pub expressions: Vec<Expression>,
}

#[derive(Debug)]
pub enum Expression {
    True,
    False,
    Integer(i64),
    Float(u64),
    Text(String),
    List(List),
    Call(Call),
    Definition(Definition),
}

/// A list literal: an ordered sequence of expressions.
#[derive(Debug)]
pub struct List {
    pub items: Vec<Expression>,
}

/// A prefix call: an identifier with an ordered argument list.
#[derive(Debug)]
pub struct Call {
    pub id: String,
    pub param: List,
}

/// A function definition; an anonymous definition carries the empty
/// identifier.
#[derive(Debug)]
pub struct Definition {
    pub id: String,
    pub block: Block,
}

// ---------------------------------------------------------------------------
// Runtime values
// ---------------------------------------------------------------------------

/// One call frame: the bindings introduced within it, ordered and unique by
/// identifier, plus the frame's own evaluated argument list.
#[derive(Debug)]
pub struct Scope {
    pub bindings: Vec<(String, Function)>,
    pub param: ListEval,
}

/// A runtime value.  A float is carried as its 64-bit IEEE bit pattern.
#[derive(Debug)]
pub enum Evaluation {
    True,
    False,
    Integer(i64),
    Float(u64),
    Text(String),
    List(ListEval),
    Function(Function),
    Exception(Exception),
}

#[derive(Debug)]
pub struct ListEval {
    pub items: Vec<Evaluation>,
}

/// A function value: the captured body block only; there is no lexical
/// capture in this language.
#[derive(Debug)]
pub struct Function {
    pub block: Block,
}

/// A first-class exception value: a flavor, a payload, and the call stack
/// accumulated outward as it propagates.
#[derive(Debug)]
pub struct Exception {
    pub flavor: ExceptionType,
    pub payload: Box<Evaluation>,
    pub stack: Vec<String>,
}

#[derive(Debug)]
pub enum ExceptionType {
    Return,
    Error,
    ArgError,
    ParseError,
    TypeError,
    TypeMismatch,
    DivByZero,
    RuntimeError,
    UndefError,
    RedefError,
}

// ---------------------------------------------------------------------------
// Ghost models of the tokens
// ---------------------------------------------------------------------------

/// Mathematical model of a `TokenValue`.
pub enum TokenValueModel {
    Colon,
    Semicolon,
    OpenBracket,
    CloseBracket,
    ID(Seq<char>),
    Integer(i64),
    Float(u64),
    Text(Seq<char>),
    True,
    False,
    EOF,
}

/// Mathematical model of a `Token`.
pub struct TokenModel {
    pub value: TokenValueModel,
    pub lnum: int,
    pub line: Seq<char>,
}

impl View for TokenValue {
    type V = TokenValueModel;

    open spec fn view(&self) -> TokenValueModel {
        match *self {
            TokenValue::Colon => TokenValueModel::Colon,
            TokenValue::Semicolon => TokenValueModel::Semicolon,
            TokenValue::OpenBracket => TokenValueModel::OpenBracket,
            TokenValue::CloseBracket => TokenValueModel::CloseBracket,
            TokenValue::ID(s) => TokenValueModel::ID(s@),
            TokenValue::Integer(x) => TokenValueModel::Integer(x),
            TokenValue::Float(x) => TokenValueModel::Float(x),
            TokenValue::Text(s) => TokenValueModel::Text(s@),
            TokenValue::True => TokenValueModel::True,
            TokenValue::False => TokenValueModel::False,
            TokenValue::EOF => TokenValueModel::EOF,
        }
    }
}

impl View for Token {
    type V = TokenModel;

    open spec fn view(&self) -> TokenModel {
        TokenModel { value: self.value@, lnum: self.lnum as int, line: self.line@ }
    }
}

pub open spec fn tokens_model(s: Seq<Token>) -> Seq<TokenModel> {
    s.map_values(|t: Token| t@)
}

// ---------------------------------------------------------------------------
// Ghost models of the syntax trees
// ---------------------------------------------------------------------------

/// Mathematical model of an `Expression`.
pub enum ExprModel {
    True,
    False,
    Integer(i64),
    Float(u64),
    Text(Seq<char>),
    List(Seq<ExprModel>),
    Call { id: Seq<char>, args: Seq<ExprModel> },
    Definition { id: Seq<char>, body: Seq<ExprModel> },
}

pub open spec fn exprs_model(s: Seq<Expression>) -> Seq<ExprModel>
    decreases s,
{
    if s.len() == 0 {
        Seq::empty()
    } else {
        seq![expr_model(s[0])] + exprs_model(s.drop_first())
    }
}

pub open spec fn expr_model(e: Expression) -> ExprModel
    decreases e,
{
    match e {
        Expression::True => ExprModel::True,
        Expression::False => ExprModel::False,
        Expression::Integer(x) => ExprModel::Integer(x),
        Expression::Float(x) => ExprModel::Float(x),
        Expression::Text(s) => ExprModel::Text(s@),
        Expression::List(l) => {
            proof {
                assert(decreases_to!(e => l));
                assert(decreases_to!(l => l.items));
                assert(decreases_to!(l.items => l.items@));
            }
            ExprModel::List(exprs_model(l.items@))
        },
        Expression::Call(c) => {
            proof {
                assert(decreases_to!(e => c));
                assert(decreases_to!(c => c.param));
                assert(decreases_to!(c.param => c.param.items));
                assert(decreases_to!(c.param.items => c.param.items@));
            }
            ExprModel::Call { id: c.id@, args: exprs_model(c.param.items@) }
        },
        Expression::Definition(d) => {
            proof {
                assert(decreases_to!(e => d));
                assert(decreases_to!(d => d.block));
                assert(decreases_to!(d.block => d.block.expressions));
                assert(decreases_to!(d.block.expressions => d.block.expressions@));
            }
            ExprModel::Definition { id: d.id@, body: exprs_model(d.block.expressions@) }
        },
    }
}

pub broadcast proof fn lemma_exprs_model_len(s: Seq<Expression>)
    ensures
        #[trigger] exprs_model(s).len() == s.len(),
    decreases s.len(),
{
    if s.len() > 0 {
        lemma_exprs_model_len(s.drop_first());
    }
}

pub broadcast proof fn lemma_exprs_model_index(s: Seq<Expression>, i: int)
    requires
        0 <= i < s.len(),
    ensures
        #[trigger] exprs_model(s)[i] == expr_model(s[i]),
    decreases s.len(),
{
    lemma_exprs_model_len(s.drop_first());
    if i > 0 {
        lemma_exprs_model_index(s.drop_first(), i - 1);
    }
}

// ---------------------------------------------------------------------------
// Ghost models of the runtime values
// ---------------------------------------------------------------------------

/// Mathematical model of an `Evaluation`.
pub enum ValModel {
    True,
    False,
    Integer(i64),
    Float(u64),
    Text(Seq<char>),
    List(Seq<ValModel>),
    Function(Seq<ExprModel>),
    Exception(ExnModel),
}

/// Mathematical model of an `Exception`.
pub struct ExnModel {
    pub flavor: ExceptionType,
    pub payload: Box<ValModel>,
    pub stack: Seq<Seq<char>>,
}

pub open spec fn strings_model(s: Seq<String>) -> Seq<Seq<char>> {
    s.map_values(|x: String| x@)
}

pub open spec fn vals_model(s: Seq<Evaluation>) -> Seq<ValModel>
    decreases s,
{
    if s.len() == 0 {
        Seq::empty()
    } else {
        seq![val_model(s[0])] + vals_model(s.drop_first())
    }
}

pub open spec fn val_model(e: Evaluation) -> ValModel
    decreases e,
{
    match e {
        Evaluation::True => ValModel::True,
        Evaluation::False => ValModel::False,
        Evaluation::Integer(x) => ValModel::Integer(x),
        Evaluation::Float(x) => ValModel::Float(x),
        Evaluation::Text(s) => ValModel::Text(s@),
        Evaluation::List(l) => {
            proof {
                assert(decreases_to!(e => l));
                assert(decreases_to!(l => l.items));
                assert(decreases_to!(l.items => l.items@));
            }
            ValModel::List(vals_model(l.items@))
        },
        Evaluation::Function(f) => ValModel::Function(exprs_model(f.block.expressions@)),
        Evaluation::Exception(x) => {
            proof {
                assert(decreases_to!(e => x));
            }
            ValModel::Exception(exn_model(x))
        },
    }
}

pub open spec fn exn_model(x: Exception) -> ExnModel
    decreases x,
{
    ExnModel {
        flavor: x.flavor,
        payload: Box::new(
            {
                proof {
                    assert(decreases_to!(x => x.payload));
                }
                val_model(*x.payload)
            },
        ),
        stack: strings_model(x.stack@),
    }
}

pub broadcast proof fn lemma_vals_model_len(s: Seq<Evaluation>)
    ensures
        #[trigger] vals_model(s).len() == s.len(),
    decreases s.len(),
{
    if s.len() > 0 {
        lemma_vals_model_len(s.drop_first());
    }
}

pub broadcast proof fn lemma_vals_model_index(s: Seq<Evaluation>, i: int)
    requires
        0 <= i < s.len(),
    ensures
        #[trigger] vals_model(s)[i] == val_model(s[i]),
    decreases s.len(),
{
    lemma_vals_model_len(s.drop_first());
    if i > 0 {
        lemma_vals_model_index(s.drop_first(), i - 1);
    }
}

/// Model of one call frame.
pub struct FrameModel {
    pub bindings: Seq<(Seq<char>, Seq<ExprModel>)>,
    pub param: Seq<ValModel>,
}

pub open spec fn bindings_model(bs: Seq<(String, Function)>) -> Seq<(Seq<char>, Seq<ExprModel>)> {
    bs.map_values(|b: (String, Function)| (b.0@, exprs_model(b.1.block.expressions@)))
}

pub open spec fn scope_model(s: Scope) -> FrameModel {
    FrameModel { bindings: bindings_model(s.bindings@), param: vals_model(s.param.items@) }
}

pub open spec fn stack_model(s: Seq<Scope>) -> Seq<FrameModel> {
    s.map_values(|sc: Scope| scope_model(sc))
}

pub open spec fn out_model(s: Seq<String>) -> Seq<Seq<char>> {
    strings_model(s)
}

// ---------------------------------------------------------------------------
// Views
// ---------------------------------------------------------------------------

impl View for Expression {
    type V = ExprModel;

    open spec fn view(&self) -> ExprModel {
        expr_model(*self)
    }
}

impl View for List {
    type V = Seq<ExprModel>;

    open spec fn view(&self) -> Seq<ExprModel> {
        exprs_model(self.items@)
    }
}

impl View for Block {
    type V = Seq<ExprModel>;

    open spec fn view(&self) -> Seq<ExprModel> {
        exprs_model(self.expressions@)
    }
}

impl View for Evaluation {
    type V = ValModel;

    open spec fn view(&self) -> ValModel {
        val_model(*self)
    }
}

impl View for ListEval {
    type V = Seq<ValModel>;

    open spec fn view(&self) -> Seq<ValModel> {
        vals_model(self.items@)
    }
}

impl View for Function {
    type V = Seq<ExprModel>;

    open spec fn view(&self) -> Seq<ExprModel> {
        exprs_model(self.block.expressions@)
    }
}

impl View for Exception {
    type V = ExnModel;

    open spec fn view(&self) -> ExnModel {
        exn_model(*self)
    }
}

impl View for Scope {
    type V = FrameModel;

    open spec fn view(&self) -> FrameModel {
        scope_model(*self)
    }
}

// ---------------------------------------------------------------------------
// Size measures, used for termination of the mutually recursive walkers
// ---------------------------------------------------------------------------

pub open spec fn expr_size(e: ExprModel) -> nat
    decreases e,
{
    match e {
        ExprModel::List(items) => 1 + exprs_size(items),
        ExprModel::Call { id, args } => 1 + exprs_size(args),
        ExprModel::Definition { id, body } => 1 + exprs_size(body),
        _ => 1,
    }
}

pub open spec fn exprs_size(es: Seq<ExprModel>) -> nat
    decreases es,
{
    if es.len() == 0 {
        0
    } else {
        expr_size(es[0]) + exprs_size(es.drop_first())
    }
}

pub proof fn lemma_exprs_size_element(es: Seq<ExprModel>, i: int)
    requires
        0 <= i < es.len(),
    ensures
        expr_size(es[i]) <= exprs_size(es),
        1 <= expr_size(es[i]),
    decreases es.len(),
{
    if i > 0 {
        lemma_exprs_size_element(es.drop_first(), i - 1);
        assert(es.drop_first()[i - 1] == es[i]);
    }
}

pub proof fn lemma_exprs_size_drop_first(es: Seq<ExprModel>)
    requires
        es.len() > 0,
    ensures
        exprs_size(es.drop_first()) < exprs_size(es),
{
    lemma_exprs_size_element(es, 0);
}

pub proof fn lemma_exprs_size_subrange(es: Seq<ExprModel>, i: int, j: int)
    requires
        0 <= i <= j <= es.len(),
    ensures
        exprs_size(es.subrange(i, j)) <= exprs_size(es),
    decreases es.len(),
{
    if i == j {
        assert(es.subrange(i, j) =~= Seq::<ExprModel>::empty());
    } else if i > 0 {
        lemma_exprs_size_subrange(es.drop_first(), i - 1, j - 1);
        assert(es.drop_first().subrange(i - 1, j - 1) =~= es.subrange(i, j));
    } else if j == es.len() {
        assert(es.subrange(i, j) =~= es);
    } else {
        lemma_exprs_size_subrange(es.drop_first(), 0, j - 1);
        assert(es.drop_first().subrange(0, j - 1) =~= es.subrange(1, j));
        assert(es.subrange(0, j).drop_first() =~= es.subrange(1, j));
        assert(exprs_size(es.subrange(0, j)) == expr_size(es[0]) + exprs_size(
            es.subrange(1, j),
        )) by {
            assert(es.subrange(0, j)[0] == es[0]);
        }
    }
}

pub open spec fn val_size(v: ValModel) -> nat
    decreases v,
{
    match v {
        ValModel::List(items) => 1 + vals_size(items),
        ValModel::Function(b) => 1 + exprs_size(b),
        ValModel::Exception(x) => {
            proof {
                assert(decreases_to!(v => x));
                assert(decreases_to!(x => x.payload));
            }
            1 + val_size(*x.payload)
        },
        _ => 1,
    }
}

pub open spec fn vals_size(vs: Seq<ValModel>) -> nat
    decreases vs,
{
    if vs.len() == 0 {
        0
    } else {
        val_size(vs[0]) + vals_size(vs.drop_first())
    }
}

pub proof fn lemma_vals_size_element(vs: Seq<ValModel>, i: int)
    requires
        0 <= i < vs.len(),
    ensures
        val_size(vs[i]) <= vals_size(vs),
        1 <= val_size(vs[i]),
    decreases vs.len(),
{
    if i > 0 {
        lemma_vals_size_element(vs.drop_first(), i - 1);
        assert(vs.drop_first()[i - 1] == vs[i]);
    }
}

// ---------------------------------------------------------------------------
// Deep copies
// ---------------------------------------------------------------------------

impl List {
    pub fn clone(&self) -> (r: List)
        ensures
            r@ == self@,
        decreases exprs_size(self@), 1int,
    {
        let mut items: Vec<Expression> = Vec::new();
        let mut i: usize = 0;
        while i < self.items.len()
            invariant
                i <= self.items.len(),
                items@.len() == i as int,
                forall|j: int| 0 <= j < i ==> items@[j]@ == self.items@[j]@,
            decreases self.items.len() - i,
        {
            proof {
                lemma_exprs_model_len(self.items@);
                lemma_exprs_model_index(self.items@, i as int);
                lemma_exprs_size_element(self@, i as int);
            }
            let e = self.items[i].clone();
            items.push(e);
            i += 1;
        }
        let r = List { items };
        proof {
            lemma_seq_of_exprs_equal(r.items@, self.items@);
        }
        r
    }
}

/// Two expression vectors with pointwise equal models have equal models.
pub proof fn lemma_seq_of_exprs_equal(a: Seq<Expression>, b: Seq<Expression>)
    requires
        a.len() == b.len(),
        forall|j: int| 0 <= j < a.len() ==> a[j]@ == b[j]@,
    ensures
        exprs_model(a) == exprs_model(b),
{
    lemma_exprs_model_len(a);
    lemma_exprs_model_len(b);
    assert forall|j: int| 0 <= j < a.len() implies exprs_model(a)[j] == exprs_model(b)[j] by {
        lemma_exprs_model_index(a, j);
        lemma_exprs_model_index(b, j);
    }
    assert(exprs_model(a) =~= exprs_model(b));
}

/// Inserting an expression at the front of a vector prepends its model.
pub proof fn lemma_exprs_insert_front(s: Seq<Expression>, e: Expression)
    ensures
        exprs_model(s.insert(0, e)) == seq![e@] + exprs_model(s),
{
    let t = s.insert(0, e);
    lemma_exprs_model_len(s);
    lemma_exprs_model_len(t);
    assert forall|j: int| 0 <= j < t.len() implies exprs_model(t)[j] == (seq![e@] + exprs_model(
        s,
    ))[j] by {
        lemma_exprs_model_index(t, j);
        if j > 0 {
            lemma_exprs_model_index(s, j - 1);
            assert(t[j] == s[j - 1]);
        } else {
            assert(t[0] == e);
        }
    }
    assert(exprs_model(t) =~= seq![e@] + exprs_model(s));
}

/// Two value vectors with pointwise equal models have equal models.
pub proof fn lemma_seq_of_vals_equal(a: Seq<Evaluation>, b: Seq<Evaluation>)
    requires
        a.len() == b.len(),
        forall|j: int| 0 <= j < a.len() ==> a[j]@ == b[j]@,
    ensures
        vals_model(a) == vals_model(b),
{
    lemma_vals_model_len(a);
    lemma_vals_model_len(b);
    assert forall|j: int| 0 <= j < a.len() implies vals_model(a)[j] == vals_model(b)[j] by {
        lemma_vals_model_index(a, j);
        lemma_vals_model_index(b, j);
    }
    assert(vals_model(a) =~= vals_model(b));
}

impl Call {
    pub fn clone(&self) -> (r: Call)
        ensures
            r.id@ == self.id@,
            r.param@ == self.param@,
        decreases exprs_size(self.param@), 2int,
    {
        Call { id: self.id.clone(), param: self.param.clone() }
    }
}

impl Definition {
    pub fn clone(&self) -> (r: Definition)
        ensures
            r.id@ == self.id@,
            r.block@ == self.block@,
        decreases exprs_size(self.block@), 2int,
    {
        Definition { id: self.id.clone(), block: self.block.clone() }
    }
}

impl Expression {
    pub fn clone(&self) -> (r: Expression)
        ensures
            r@ == self@,
        decreases expr_size(self@), 0int,
    {
        match self {
            Expression::True => Expression::True,
            Expression::False => Expression::False,
            Expression::Integer(x) => Expression::Integer(*x),
            Expression::Float(x) => Expression::Float(*x),
            Expression::Text(s) => Expression::Text(s.clone()),
            Expression::List(list) => Expression::List(list.clone()),
            Expression::Call(call) => Expression::Call(call.clone()),
            Expression::Definition(def) => Expression::Definition(def.clone()),
        }
    }
}

impl Block {
    pub fn clone(&self) -> (r: Block)
        ensures
            r@ == self@,
        decreases exprs_size(self@), 1int,
    {
        let mut expressions: Vec<Expression> = Vec::new();
        let mut i: usize = 0;
        while i < self.expressions.len()
            invariant
                i <= self.expressions.len(),
                expressions@.len() == i as int,
                forall|j: int| 0 <= j < i ==> expressions@[j]@ == self.expressions@[j]@,
            decreases self.expressions.len() - i,
        {
            proof {
                lemma_exprs_model_len(self.expressions@);
                lemma_exprs_model_index(self.expressions@, i as int);
                lemma_exprs_size_element(self@, i as int);
            }
            let e = self.expressions[i].clone();
            expressions.push(e);
            i += 1;
        }
        let r = Block { expressions };
        proof {
            lemma_seq_of_exprs_equal(r.expressions@, self.expressions@);
        }
        r
    }
}

impl Function {
    pub fn clone(&self) -> (r: Function)
        ensures
            r@ == self@,
        decreases exprs_size(self@), 2int,
    {
        Function { block: self.block.clone() }
    }
}

impl Evaluation {
    pub fn clone(&self) -> (r: Evaluation)
        ensures
            r@ == self@,
        decreases val_size(self@), 0int,
    {
        match self {
            Evaluation::True => Evaluation::True,
            Evaluation::False => Evaluation::False,
            Evaluation::Integer(x) => Evaluation::Integer(*x),
            Evaluation::Float(x) => Evaluation::Float(*x),
            Evaluation::Text(s) => Evaluation::Text(s.clone()),
            Evaluation::List(list) => Evaluation::List(list.clone()),
            Evaluation::Function(func) => Evaluation::Function(func.clone()),
            Evaluation::Exception(e) => Evaluation::Exception(e.clone()),
        }
    }
}

impl ListEval {
    pub fn clone(&self) -> (r: ListEval)
        ensures
            r@ == self@,
        decreases vals_size(self@), 1int,
    {
        let mut items: Vec<Evaluation> = Vec::new();
        let mut i: usize = 0;
        while i < self.items.len()
            invariant
                i <= self.items.len(),
                items@.len() == i as int,
                forall|j: int| 0 <= j < i ==> items@[j]@ == self.items@[j]@,
            decreases self.items.len() - i,
        {
            proof {
                lemma_vals_model_len(self.items@);
                lemma_vals_model_index(self.items@, i as int);
                lemma_vals_size_element(self@, i as int);
            }
            let e = self.items[i].clone();
            items.push(e);
            i += 1;
        }
        let r = ListEval { items };
        proof {
            lemma_seq_of_vals_equal(r.items@, self.items@);
        }
        r
    }
}

impl ExceptionType {
    pub fn clone(&self) -> (r: ExceptionType)
        ensures
            r == *self,
    {
        match self {
            ExceptionType::Return => ExceptionType::Return,
            ExceptionType::Error => ExceptionType::Error,
            ExceptionType::ArgError => ExceptionType::ArgError,
            ExceptionType::ParseError => ExceptionType::ParseError,
            ExceptionType::TypeError => ExceptionType::TypeError,
            ExceptionType::TypeMismatch => ExceptionType::TypeMismatch,
            ExceptionType::DivByZero => ExceptionType::DivByZero,
            ExceptionType::RuntimeError => ExceptionType::RuntimeError,
            ExceptionType::UndefError => ExceptionType::UndefError,
            ExceptionType::RedefError => ExceptionType::RedefError,
        }
    }

    /// The user-visible name of the flavor, as `catch` and the diagnostics
    /// render it.
    pub fn name(&self) -> (s: String)
        ensures
            s@ == flavor_name(*self),
    {
        match self {
            ExceptionType::Return => String::from_str("return"),
            ExceptionType::Error => String::from_str("error"),
            ExceptionType::ArgError => String::from_str("parameter length"),
            ExceptionType::ParseError => String::from_str("parse error"),
            ExceptionType::TypeError => String::from_str("type error"),
            ExceptionType::TypeMismatch => String::from_str("type mismatch"),
            ExceptionType::DivByZero => String::from_str("division by zero"),
            ExceptionType::RuntimeError => String::from_str("runtime error"),
            ExceptionType::UndefError => String::from_str("undefined function"),
            ExceptionType::RedefError => String::from_str("redefinition error"),
        }
    }
}

pub open spec fn flavor_name(f: ExceptionType) -> Seq<char> {
    match f {
        ExceptionType::Return => "return"@,
        ExceptionType::Error => "error"@,
        ExceptionType::ArgError => "parameter length"@,
        ExceptionType::ParseError => "parse error"@,
        ExceptionType::TypeError => "type error"@,
        ExceptionType::TypeMismatch => "type mismatch"@,
        ExceptionType::DivByZero => "division by zero"@,
        ExceptionType::RuntimeError => "runtime error"@,
        ExceptionType::UndefError => "undefined function"@,
        ExceptionType::RedefError => "redefinition error"@,
    }
}

/// The list form of an exception, as the `catch` primitive exposes it:
/// the flavor's name, the payload, and the propagation stack as strings.
pub open spec fn exn_to_list_model(x: ExnModel) -> Seq<ValModel> {
    seq![
        ValModel::Text(flavor_name(x.flavor)),
        *x.payload,
        ValModel::List(x.stack.map_values(|s: Seq<char>| ValModel::Text(s))),
    ]
}

impl Exception {
    pub fn new(flavor: &ExceptionType, payload: &Evaluation) -> (r: Exception)
        ensures
            r@ == (ExnModel { flavor: *flavor, payload: Box::new(payload@), stack: Seq::empty() }),
            r.stack@.len() == 0,
        decreases val_size(payload@), 1int,
    {
        let r = Exception { flavor: flavor.clone(), payload: Box::new(payload.clone()), stack: Vec::new() };
        proof {
            assert(r@.stack =~= Seq::<Seq<char>>::empty());
        }
        r
    }

    pub fn clone(&self) -> (r: Exception)
        ensures
            r@ == self@,
        decreases val_size(*self@.payload), 2int,
    {
        let mut e = Exception::new(&self.flavor, &*self.payload);
        let mut i: usize = 0;
        while i < self.stack.len()
            invariant
                i <= self.stack.len(),
                e.stack@.len() == i as int,
                e.flavor == self.flavor,
                val_model(*e.payload) == val_model(*self.payload),
                forall|j: int| 0 <= j < i ==> e.stack@[j]@ == self.stack@[j]@,
            decreases self.stack.len() - i,
        {
            let s = self.stack[i].clone();
            e.stack.push(s);
            i += 1;
        }
        proof {
            assert(e@.stack =~= self@.stack);
        }
        e
    }

    /// The list form of this exception, as the `catch` primitive returns it.
    pub fn to_list(&self) -> (r: ListEval)
        ensures
            r@ == exn_to_list_model(self@),
    {
        let mut stack = ListEval { items: Vec::new() };
        let mut rc = ListEval { items: Vec::new() };
        rc.items.push(Evaluation::Text(self.flavor.name()));
        rc.items.push((*self.payload).clone());
        let mut i: usize = 0;
        while i < self.stack.len()
            invariant
                i <= self.stack.len(),
                stack.items@.len() == i as int,
                forall|j: int| 0 <= j < i ==> stack.items@[j]@ == ValModel::Text(self.stack@[j]@),
            decreases self.stack.len() - i,
        {
            let s = self.stack[i].clone();
            stack.items.push(Evaluation::Text(s));
            i += 1;
        }
        proof {
            lemma_vals_model_len(stack.items@);
            assert forall|j: int| 0 <= j < stack.items@.len() implies vals_model(stack.items@)[j]
                == self@.stack.map_values(|s: Seq<char>| ValModel::Text(s))[j] by {
                lemma_vals_model_index(stack.items@, j);
            }
            assert(vals_model(stack.items@) =~= self@.stack.map_values(
                |s: Seq<char>| ValModel::Text(s),
            ));
        }
        rc.items.push(Evaluation::List(stack));
        proof {
            lemma_vals_model_len(rc.items@);
            lemma_vals_model_index(rc.items@, 0);
            lemma_vals_model_index(rc.items@, 1);
            lemma_vals_model_index(rc.items@, 2);
            assert(rc@ =~= exn_to_list_model(self@));
        }
        rc
    }
}

} // verus!

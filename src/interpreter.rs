//! The interpreter: runs a program's syntax tree.
//!
//! The meaning of a program is given by the spec functions `eval`, `call`,
//! `eval_args`, `run_body`, `exec_stmt` and `program`; the executable
//! functions are proved to compute exactly what they describe.
use vstd::prelude::*;
use crate::ast::ASTNode;
use crate::number::{Number, num_text, number_text, number_sum, number_diff, number_prod, number_quot, num_sum, num_diff, num_prod, num_quot};
use crate::text::{chars_of, string_from, text, text_is};

verus! {

broadcast use vstd::std_specs::vec::axiom_vec_index_decreases;

/// A runtime value.
#[derive(Debug, PartialEq)]
pub enum Value {
    Number(Number),
    String(String),
    Bool(i8),
}

/// What a runtime value stands for.
pub enum Val {
    Num(Number),
    Text(Seq<char>),
    Flag(i8),
}

impl View for Value {
    type V = Val;

    open spec fn view(&self) -> Val {
        match self {
            Value::Number(n) => Val::Num(*n),
            Value::String(s) => Val::Text(s@),
            Value::Bool(b) => Val::Flag(*b),
        }
    }
}

pub open spec fn val_wf(v: Val) -> bool {
    v matches Val::Num(n) ==> n.wf()
}

/// Why a program stopped.
#[derive(Debug, PartialEq, Eq)]
pub enum RunError {
    UndefinedVariable(String),
    UndefinedFunction(String),
    ArityMismatch { name: String, expected: usize, given: usize },
    UnsupportedOperands(String),
    UnknownOperator(String),
    CallDepthExceeded,
    MalformedNumber,
    NotAnExpression,
}

/// A line of output: plain, or to be passed through the style transform.
#[derive(Debug, PartialEq, Eq)]
pub enum Line {
    Plain(String),
    Styled(String),
}

impl View for Line {
    type V = (bool, Seq<char>);

    open spec fn view(&self) -> (bool, Seq<char>) {
        match self {
            Line::Plain(s) => (false, s@),
            Line::Styled(s) => (true, s@),
        }
    }
}

/// How deep function calls may nest.
pub const MAX_CALL_DEPTH: u64 = 200;

pub open spec fn lines_view(v: Seq<Line>) -> Seq<(bool, Seq<char>)> {
    v.map_values(|l: Line| l@)
}

pub open spec fn vars_view(v: Seq<(String, Value)>) -> Seq<(Seq<char>, Val)> {
    v.map_values(|p: (String, Value)| (p.0@, p.1@))
}

pub open spec fn vars_wf(v: Seq<(Seq<char>, Val)>) -> bool {
    forall|i: int| 0 <= i < v.len() ==> val_wf(#[trigger] v[i].1)
}

pub open spec fn value_result(r: Result<Value, RunError>) -> Result<Val, RunError> {
    match r {
        Ok(v) => Ok(v@),
        Err(e) => Err(e),
    }
}

pub open spec fn opt_view(o: Option<Value>) -> Option<Val> {
    match o {
        Some(v) => Some(v@),
        None => None,
    }
}

/// The value most recently bound to `name`.
pub open spec fn lookup_var(vars: Seq<(Seq<char>, Val)>, name: Seq<char>) -> Option<Val>
    decreases vars.len(),
{
    if vars.len() == 0 {
        None
    } else if vars.last().0 == name {
        Some(vars.last().1)
    } else {
        lookup_var(vars.drop_last(), name)
    }
}

/// The index in `ast` of the last registered function declaration named `name`.
pub open spec fn find_function(ast: Seq<ASTNode>, funcs: Seq<usize>, name: Seq<char>) -> Option<int>
    decreases funcs.len(),
{
    if funcs.len() == 0 {
        None
    } else {
        let i = funcs.last() as int;
        if i < ast.len() && ast[i] is FunctionDeclaration && ast[i]->FunctionDeclaration_0.name@
            == name {
            Some(i)
        } else {
            find_function(ast, funcs.drop_last(), name)
        }
    }
}

/// The text a function call yields when its body returns nothing.
pub open spec fn no_return() -> Seq<char> {
    "No return value"@
}

/// The name of a value's kind.
pub open spec fn kind_name(v: Val) -> Seq<char> {
    match v {
        Val::Num(_) => "number"@,
        Val::Text(_) => "string"@,
        Val::Flag(_) => "boolean"@,
    }
}

/// How a value is printed.
pub open spec fn render(v: Val) -> Seq<char> {
    match v {
        Val::Num(n) => num_text(n),
        Val::Text(s) => s,
        Val::Flag(b) => if b == 1 { "twue"@ } else { "fawse"@ },
    }
}

/// A value taken as a number: booleans count as their 0/1 encoding.
pub open spec fn as_number(v: Val) -> Option<Number> {
    match v {
        Val::Num(n) => Some(n),
        Val::Flag(b) => Some(Number::Ratio { num: b as i128, den: 1 }),
        Val::Text(_) => None,
    }
}

pub open spec fn arith(op: Seq<char>, a: Number, b: Number) -> Number {
    if op == "+"@ {
        num_sum(a, b)
    } else if op == "-"@ {
        num_diff(a, b)
    } else if op == "*"@ {
        num_prod(a, b)
    } else {
        num_quot(a, b)
    }
}

pub open spec fn numeric(op: String, l: Val, r: Val) -> Result<Val, RunError> {
    match (as_number(l), as_number(r)) {
        (Some(a), Some(b)) => Ok(Val::Num(arith(op@, a, b))),
        _ => Err(RunError::UnsupportedOperands(op)),
    }
}

/// The binary operator `op` applied to two values.
pub open spec fn binop(op: String, l: Val, r: Val) -> Result<Val, RunError> {
    if op@ == "+"@ {
        match (l, r) {
            (Val::Text(a), Val::Text(b)) => Ok(Val::Text(a + b)),
            (Val::Text(a), Val::Num(n)) => Ok(Val::Text(a + num_text(n))),
            (Val::Num(n), Val::Text(b)) => Ok(Val::Text(num_text(n) + b)),
            _ => numeric(op, l, r),
        }
    } else if op@ == "-"@ || op@ == "*"@ || op@ == "/"@ {
        numeric(op, l, r)
    } else {
        Err(RunError::UnknownOperator(op))
    }
}

pub open spec fn arg_count(node: ASTNode) -> int {
    match node {
        ASTNode::FunctionCall(c) => c.arguments@.len() as int,
        _ => 0,
    }
}

pub open spec fn body_len(node: ASTNode) -> int {
    match node {
        ASTNode::FunctionDeclaration(d) => d.body@.len() as int,
        _ => 0,
    }
}

/// The local variables of a call: each parameter among the first `n` bound
/// to its argument's value.
pub open spec fn bind_params(params: Seq<ASTNode>, vals: Seq<Val>, n: int) -> Seq<(Seq<char>, Val)>
    decreases n,
{
    if n <= 0 {
        Seq::empty()
    } else {
        let prev = bind_params(params, vals, n - 1);
        match params[n - 1] {
            ASTNode::VariableDeclaration(v) => prev.push((v.name@, vals[n - 1])),
            _ => prev,
        }
    }
}

/// Evaluates an expression: the lines it prints and its value.
pub open spec fn eval(
    ast: Seq<ASTNode>,
    funcs: Seq<usize>,
    node: ASTNode,
    vars: Seq<(Seq<char>, Val)>,
    depth: nat,
) -> (Seq<(bool, Seq<char>)>, Result<Val, RunError>)
    decreases depth, node, 2int, 0int,
{
    match node {
        ASTNode::StringLiteral(s) => (Seq::empty(), Ok(Val::Text(s.value@))),
        ASTNode::NumberLiteral(n) => (
            Seq::empty(),
            if n.value.wf() { Ok(Val::Num(n.value)) } else { Err(RunError::MalformedNumber) },
        ),
        ASTNode::BoolLiteral(b) => (Seq::empty(), Ok(Val::Flag(b.value))),
        ASTNode::VariableReference(v) => (
            Seq::empty(),
            match lookup_var(vars, v.name@) {
                Some(x) => Ok(x),
                None => Err(RunError::UndefinedVariable(v.name)),
            },
        ),
        ASTNode::Print(p) => eval(ast, funcs, *p.expression, vars, depth),
        ASTNode::OwO(p) => eval(ast, funcs, *p.expression, vars, depth),
        ASTNode::KindOf(k) => {
            let (o, r) = eval(ast, funcs, *k.expression, vars, depth);
            (
                o,
                match r {
                    Ok(v) => Ok(Val::Text(kind_name(v))),
                    Err(e) => Err(e),
                },
            )
        },
        ASTNode::BinaryExpression(e) => {
            let (o1, r1) = eval(ast, funcs, *e.left, vars, depth);
            match r1 {
                Err(x) => (o1, Err(x)),
                Ok(l) => {
                    let (o2, r2) = eval(ast, funcs, *e.right, vars, depth);
                    (
                        o1 + o2,
                        match r2 {
                            Err(x) => Err(x),
                            Ok(r) => binop(e.operator, l, r),
                        },
                    )
                },
            }
        },
        ASTNode::FunctionCall(_) => call(ast, funcs, node, vars, depth),
        _ => (Seq::empty(), Err(RunError::NotAnExpression)),
    }
}

/// Calls the function that the call node `node` names.
pub open spec fn call(
    ast: Seq<ASTNode>,
    funcs: Seq<usize>,
    node: ASTNode,
    vars: Seq<(Seq<char>, Val)>,
    depth: nat,
) -> (Seq<(bool, Seq<char>)>, Result<Val, RunError>)
    decreases depth, node, 1int, 0int,
{
    match node {
        ASTNode::FunctionCall(c) => match find_function(ast, funcs, c.name@) {
            None => (Seq::empty(), Err(RunError::UndefinedFunction(c.name))),
            Some(i) => {
                let d = ast[i]->FunctionDeclaration_0;
                if c.arguments.len() != d.params.len() {
                    (
                        Seq::empty(),
                        Err(
                            RunError::ArityMismatch {
                                name: c.name,
                                expected: d.params.len(),
                                given: c.arguments.len(),
                            },
                        ),
                    )
                } else if depth == 0 {
                    (Seq::empty(), Err(RunError::CallDepthExceeded))
                } else {
                    let (o1, ra) = eval_args(ast, funcs, node, 0, vars, depth);
                    match ra {
                        Err(x) => (o1, Err(x)),
                        Ok(vals) => {
                            let locals = bind_params(d.params@, vals, d.params@.len() as int);
                            let (o2, rb) = run_body(ast, funcs, ast[i], 0, locals, (depth - 1) as nat);
                            (
                                o1 + o2,
                                match rb {
                                    Err(x) => Err(x),
                                    Ok(Some(v)) => Ok(v),
                                    Ok(None) => Ok(Val::Text(no_return())),
                                },
                            )
                        },
                    }
                }
            },
        },
        _ => (Seq::empty(), Err(RunError::NotAnExpression)),
    }
}

/// Evaluates the arguments of the call node `node` from the `i`-th on, left to right.
pub open spec fn eval_args(
    ast: Seq<ASTNode>,
    funcs: Seq<usize>,
    node: ASTNode,
    i: int,
    vars: Seq<(Seq<char>, Val)>,
    depth: nat,
) -> (Seq<(bool, Seq<char>)>, Result<Seq<Val>, RunError>)
    decreases depth, node, 0int, arg_count(node) - i,
{
    match node {
        ASTNode::FunctionCall(c) => {
            if i < 0 || i >= c.arguments@.len() {
                (Seq::empty(), Ok(Seq::empty()))
            } else {
                let (o1, r1) = eval(ast, funcs, c.arguments[i], vars, depth);
                match r1 {
                    Err(x) => (o1, Err(x)),
                    Ok(v) => {
                        let (o2, r2) = eval_args(ast, funcs, node, i + 1, vars, depth);
                        (
                            o1 + o2,
                            match r2 {
                                Ok(vs) => Ok(seq![v] + vs),
                                Err(x) => Err(x),
                            },
                        )
                    },
                }
            }
        },
        _ => (Seq::empty(), Ok(Seq::empty())),
    }
}

/// Runs the body of the declaration `fnode` from its `j`-th statement on,
/// stopping at the first statement that yields a value.
pub open spec fn run_body(
    ast: Seq<ASTNode>,
    funcs: Seq<usize>,
    fnode: ASTNode,
    j: int,
    vars: Seq<(Seq<char>, Val)>,
    depth: nat,
) -> (Seq<(bool, Seq<char>)>, Result<Option<Val>, RunError>)
    decreases depth, fnode, 0int, body_len(fnode) - j,
{
    match fnode {
        ASTNode::FunctionDeclaration(d) => {
            if j < 0 || j >= d.body@.len() {
                (Seq::empty(), Ok(None))
            } else {
                let (o1, r1) = exec_stmt(ast, funcs, d.body[j], vars, depth);
                match r1 {
                    Err(x) => (o1, Err(x)),
                    Ok((Some(v), _)) => (o1, Ok(Some(v))),
                    Ok((None, vars2)) => {
                        let (o2, r2) = run_body(ast, funcs, fnode, j + 1, vars2, depth);
                        (o1 + o2, r2)
                    },
                }
            }
        },
        _ => (Seq::empty(), Ok(None)),
    }
}

/// Executes one statement: the lines it prints, the value it yields (a
/// `return` alone yields one) and the variables afterwards.
pub open spec fn exec_stmt(
    ast: Seq<ASTNode>,
    funcs: Seq<usize>,
    stmt: ASTNode,
    vars: Seq<(Seq<char>, Val)>,
    depth: nat,
) -> (Seq<(bool, Seq<char>)>, Result<(Option<Val>, Seq<(Seq<char>, Val)>), RunError>)
    decreases depth, stmt, 3int, 0int,
{
    match stmt {
        ASTNode::Print(p) => {
            let (o, r) = eval(ast, funcs, *p.expression, vars, depth);
            match r {
                Err(x) => (o, Err(x)),
                Ok(v) => (o.push((false, render(v))), Ok((None, vars))),
            }
        },
        ASTNode::OwO(p) => {
            let (o, r) = eval(ast, funcs, *p.expression, vars, depth);
            match r {
                Err(x) => (o, Err(x)),
                Ok(v) => (o.push((v is Text, render(v))), Ok((None, vars))),
            }
        },
        ASTNode::KindOf(_) | ASTNode::FunctionCall(_) => {
            let (o, r) = eval(ast, funcs, stmt, vars, depth);
            match r {
                Err(x) => (o, Err(x)),
                Ok(_) => (o, Ok((None, vars))),
            }
        },
        ASTNode::Return(rn) => {
            let (o, r) = eval(ast, funcs, *rn.value, vars, depth);
            match r {
                Err(x) => (o, Err(x)),
                Ok(v) => (o, Ok((Some(v), vars))),
            }
        },
        ASTNode::VariableDeclaration(d) => {
            let (o, r) = eval(ast, funcs, *d.value, vars, depth);
            match r {
                Err(x) => (o, Err(x)),
                Ok(v) => (o, Ok((None, vars.push((d.name@, v))))),
            }
        },
        _ => (Seq::empty(), Ok((None, vars))),
    }
}

pub open spec fn values_view(v: Seq<Value>) -> Seq<Val> {
    v.map_values(|x: Value| x@)
}

pub open spec fn opt_result(r: Result<Option<Value>, RunError>) -> Result<Option<Val>, RunError> {
    match r {
        Ok(o) => Ok(opt_view(o)),
        Err(e) => Err(e),
    }
}

/// Whether a statement's executable outcome, with the variables it left,
/// is the one `s` describes.
pub open spec fn stmt_outcome(
    r: Result<Option<Value>, RunError>,
    env_after: Seq<(String, Value)>,
    s: Result<(Option<Val>, Seq<(Seq<char>, Val)>), RunError>,
) -> bool {
    match s {
        Ok((ov, vs)) => r is Ok && opt_view(r->Ok_0) == ov && vars_view(env_after) == vs,
        Err(e) => r == Err::<Option<Value>, RunError>(e),
    }
}

fn copy_value(v: &Value) -> (r: Value)
    ensures
        r@ == v@,
{
    match v {
        Value::Number(n) => Value::Number(*n),
        Value::String(s) => Value::String(s.clone()),
        Value::Bool(b) => Value::Bool(*b),
    }
}

fn lookup(env: &Vec<(String, Value)>, name: &String) -> (r: Option<Value>)
    ensures
        opt_view(r) == lookup_var(vars_view(env@), name@),
{
    let ghost all = vars_view(env@);
    let mut i: usize = env.len();
    proof {
        assert(all.subrange(0, i as int) =~= all);
    }
    while i > 0
        invariant
            i <= env@.len(),
            all == vars_view(env@),
            lookup_var(all, name@) == lookup_var(all.subrange(0, i as int), name@),
        decreases i,
    {
        i = i - 1;
        let ghost sub = all.subrange(0, i + 1);
        assert(sub.drop_last() =~= all.subrange(0, i as int));
        if env[i].0 == *name {
            return Some(copy_value(&env[i].1));
        }
    }
    None
}

fn find(ast: &[ASTNode], funcs: &Vec<usize>, name: &String) -> (r: Option<usize>)
    ensures
        r matches Some(i) ==> find_function(ast@, funcs@, name@) == Some(i as int),
        r is None ==> find_function(ast@, funcs@, name@) is None,
{
    let mut k: usize = funcs.len();
    proof {
        assert(funcs@.subrange(0, k as int) =~= funcs@);
    }
    while k > 0
        invariant
            k <= funcs@.len(),
            find_function(ast@, funcs@, name@) == find_function(ast@, funcs@.subrange(0, k as int), name@),
        decreases k,
    {
        k = k - 1;
        let ghost sub = funcs@.subrange(0, k + 1);
        assert(sub.drop_last() =~= funcs@.subrange(0, k as int));
        let i = funcs[k];
        if i < ast.len() {
            if let ASTNode::FunctionDeclaration(d) = &ast[i] {
                if d.name == *name {
                    return Some(i);
                }
            }
        }
    }
    None
}

fn join_chars(a: &Vec<char>, b: &Vec<char>) -> (r: Vec<char>)
    ensures
        r@ == a@ + b@,
{
    let mut r: Vec<char> = Vec::new();
    let mut i: usize = 0;
    while i < a.len()
        invariant
            i <= a@.len(),
            r@ == a@.subrange(0, i as int),
        decreases a@.len() - i,
    {
        r.push(a[i]);
        i = i + 1;
        assert(r@ =~= a@.subrange(0, i as int));
    }
    let mut j: usize = 0;
    while j < b.len()
        invariant
            i == a@.len(),
            j <= b@.len(),
            r@ == a@ + b@.subrange(0, j as int),
        decreases b@.len() - j,
    {
        r.push(b[j]);
        j = j + 1;
        assert(r@ =~= a@ + b@.subrange(0, j as int));
    }
    assert(a@.subrange(0, i as int) =~= a@);
    assert(b@.subrange(0, j as int) =~= b@);
    r
}

fn to_number(v: &Value) -> (r: Option<Number>)
    ensures
        r == as_number(v@),
{
    match v {
        Value::Number(n) => Some(*n),
        Value::Bool(b) => Some(Number::Ratio { num: *b as i128, den: 1 }),
        Value::String(_) => None,
    }
}

fn numeric_operator(op: &String, l: &Value, r: &Value) -> (res: Result<Value, RunError>)
    requires
        val_wf(l@),
        val_wf(r@),
        op@ == "+"@ || op@ == "-"@ || op@ == "*"@ || op@ == "/"@,
    ensures
        value_result(res) == numeric(*op, l@, r@),
        res matches Ok(v) ==> val_wf(v@),
{
    match (to_number(l), to_number(r)) {
        (Some(a), Some(b)) => {
            let n = if text_is(op, "+") {
                number_sum(a, b)
            } else if text_is(op, "-") {
                number_diff(a, b)
            } else if text_is(op, "*") {
                number_prod(a, b)
            } else {
                number_quot(a, b)
            };
            Ok(Value::Number(n))
        },
        _ => Err(RunError::UnsupportedOperands(op.clone())),
    }
}

/// Applies the binary operator `op` to two values.
pub fn apply_operator(op: &String, l: &Value, r: &Value) -> (res: Result<Value, RunError>)
    requires
        val_wf(l@),
        val_wf(r@),
    ensures
        value_result(res) == binop(*op, l@, r@),
        res matches Ok(v) ==> val_wf(v@),
        (op@ == "+"@ || op@ == "-"@ || op@ == "*"@ || op@ == "/"@) && as_number(l@) is Some
            && as_number(r@) is Some ==> res is Ok,
{
    if text_is(op, "+") {
        match (l, r) {
            (Value::String(a), Value::String(b)) => {
                let s = join_chars(&chars_of(a.as_str()), &chars_of(b.as_str()));
                Ok(Value::String(string_from(&s)))
            },
            (Value::String(a), Value::Number(n)) => {
                let s = join_chars(&chars_of(a.as_str()), &number_text(*n));
                Ok(Value::String(string_from(&s)))
            },
            (Value::Number(n), Value::String(b)) => {
                let s = join_chars(&number_text(*n), &chars_of(b.as_str()));
                Ok(Value::String(string_from(&s)))
            },
            _ => numeric_operator(op, l, r),
        }
    } else if text_is(op, "-") || text_is(op, "*") || text_is(op, "/") {
        numeric_operator(op, l, r)
    } else {
        Err(RunError::UnknownOperator(op.clone()))
    }
}

fn kind_of_value(v: &Value) -> (r: String)
    ensures
        r@ == kind_name(v@),
{
    match v {
        Value::Number(_) => text("number"),
        Value::String(_) => text("string"),
        Value::Bool(_) => text("boolean"),
    }
}

/// The text that printing `v` writes.
pub fn render_value(v: &Value) -> (r: String)
    requires
        val_wf(v@),
    ensures
        r@ == render(v@),
{
    match v {
        Value::Number(n) => string_from(&number_text(*n)),
        Value::String(s) => s.clone(),
        Value::Bool(b) => if *b == 1 { text("twue") } else { text("fawse") },
    }
}

/// Evaluates the expression `node` with the variables `env`; what it prints
/// goes to `out`.
pub fn evaluate(
    ast: &[ASTNode],
    funcs: &Vec<usize>,
    node: &ASTNode,
    env: &Vec<(String, Value)>,
    depth: u64,
    out: &mut Vec<Line>,
) -> (r: Result<Value, RunError>)
    requires
        vars_wf(vars_view(env@)),
    ensures
        lines_view(final(out)@) == lines_view(old(out)@) + eval(
            ast@,
            funcs@,
            *node,
            vars_view(env@),
            depth as nat,
        ).0,
        value_result(r) == eval(ast@, funcs@, *node, vars_view(env@), depth as nat).1,
        r matches Ok(v) ==> val_wf(v@),
    decreases depth, *node, 2int, 0int,
{
    let ghost before = lines_view(out@);
    let ghost vars = vars_view(env@);
    match node {
        ASTNode::StringLiteral(s) => {
            assert(lines_view(out@) =~= before + Seq::empty());
            Ok(Value::String(s.value.clone()))
        },
        ASTNode::NumberLiteral(n) => {
            assert(lines_view(out@) =~= before + Seq::empty());
            if n.value.is_well_formed() {
                Ok(Value::Number(n.value))
            } else {
                Err(RunError::MalformedNumber)
            }
        },
        ASTNode::BoolLiteral(b) => {
            assert(lines_view(out@) =~= before + Seq::empty());
            Ok(Value::Bool(b.value))
        },
        ASTNode::VariableReference(v) => {
            assert(lines_view(out@) =~= before + Seq::empty());
            match lookup(env, &v.name) {
                Some(x) => {
                    proof {
                        lemma_lookup_wf(vars, v.name@);
                    }
                    Ok(x)
                },
                None => Err(RunError::UndefinedVariable(v.name.clone())),
            }
        },
        ASTNode::Print(p) => evaluate(ast, funcs, &p.expression, env, depth, out),
        ASTNode::OwO(p) => evaluate(ast, funcs, &p.expression, env, depth, out),
        ASTNode::KindOf(k) => {
            match evaluate(ast, funcs, &k.expression, env, depth, out) {
                Ok(v) => Ok(Value::String(kind_of_value(&v))),
                Err(e) => Err(e),
            }
        },
        ASTNode::BinaryExpression(e) => {
            let l = evaluate(ast, funcs, &e.left, env, depth, out);
            match l {
                Err(x) => Err(x),
                Ok(l) => {
                    let r = evaluate(ast, funcs, &e.right, env, depth, out);
                    proof {
                        let o1 = eval(ast@, funcs@, *e.left, vars, depth as nat).0;
                        let o2 = eval(ast@, funcs@, *e.right, vars, depth as nat).0;
                        assert(lines_view(out@) =~= before + (o1 + o2));
                    }
                    match r {
                        Err(x) => Err(x),
                        Ok(r) => apply_operator(&e.operator, &l, &r),
                    }
                },
            }
        },
        ASTNode::FunctionCall(_) => call_function(ast, funcs, node, env, depth, out),
        _ => {
            assert(lines_view(out@) =~= before + Seq::empty());
            Err(RunError::NotAnExpression)
        },
    }
}

proof fn lemma_lookup_wf(vars: Seq<(Seq<char>, Val)>, name: Seq<char>)
    requires
        vars_wf(vars),
    ensures
        lookup_var(vars, name) matches Some(v) ==> val_wf(v),
    decreases vars.len(),
{
    if vars.len() > 0 && vars.last().0 != name {
        assert(vars_wf(vars.drop_last())) by {
            assert forall|i: int| 0 <= i < vars.drop_last().len() implies val_wf(
                #[trigger] vars.drop_last()[i].1,
            ) by {
                assert(vars.drop_last()[i] == vars[i]);
            }
        }
        lemma_lookup_wf(vars.drop_last(), name);
    }
}

/// Calls the function that the call node `node` names: its arguments are
/// evaluated with `env`, its body runs with the parameters alone.
pub fn call_function(
    ast: &[ASTNode],
    funcs: &Vec<usize>,
    node: &ASTNode,
    env: &Vec<(String, Value)>,
    depth: u64,
    out: &mut Vec<Line>,
) -> (r: Result<Value, RunError>)
    requires
        vars_wf(vars_view(env@)),
    ensures
        lines_view(final(out)@) == lines_view(old(out)@) + call(
            ast@,
            funcs@,
            *node,
            vars_view(env@),
            depth as nat,
        ).0,
        value_result(r) == call(ast@, funcs@, *node, vars_view(env@), depth as nat).1,
        r matches Ok(v) ==> val_wf(v@),
    decreases depth, *node, 1int, 0int,
{
    let ghost before = lines_view(out@);
    let ghost vars = vars_view(env@);
    match node {
        ASTNode::FunctionCall(c) => {
            match find(ast, funcs, &c.name) {
                None => {
                    assert(lines_view(out@) =~= before + Seq::empty());
                    Err(RunError::UndefinedFunction(c.name.clone()))
                },
                Some(i) => {
                    proof {
                        lemma_find_declares(ast@, funcs@, c.name@);
                    }
                    let fnode = &ast[i];
                    match fnode {
                        ASTNode::FunctionDeclaration(d) => {
                            if c.arguments.len() != d.params.len() {
                                assert(lines_view(out@) =~= before + Seq::empty());
                                return Err(
                                    RunError::ArityMismatch {
                                        name: c.name.clone(),
                                        expected: d.params.len(),
                                        given: c.arguments.len(),
                                    },
                                );
                            }
                            if depth == 0 {
                                assert(lines_view(out@) =~= before + Seq::empty());
                                return Err(RunError::CallDepthExceeded);
                            }
                            let mut vals: Vec<Value> = Vec::new();
                            assert(values_view(vals@) =~= Seq::empty());
                            let ra = eval_arguments(ast, funcs, node, 0, env, depth, out, &mut vals);
                            let ghost o1 = eval_args(ast@, funcs@, *node, 0, vars, depth as nat).0;
                            match ra {
                                Err(x) => Err(x),
                                Ok(()) => {
                                    let ghost vs = values_view(vals@);
                                    proof {
                                        lemma_args_len(ast@, funcs@, *node, 0, vars, depth as nat);
                                    }
                                    assert(vs =~= eval_args(ast@, funcs@, *node, 0, vars, depth as nat).1->Ok_0);
                                    let mut locals: Vec<(String, Value)> = Vec::new();
                                    let mut k: usize = 0;
                                    proof {
                                        assert(vars_view(locals@) =~= bind_params(d.params@, vs, 0));
                                    }
                                    while k < d.params.len()
                                        invariant
                                            k <= d.params@.len(),
                                            d.params@.len() == vals@.len(),
                                            vs == values_view(vals@),
                                            forall|m: int| 0 <= m < vals@.len() ==> val_wf(#[trigger] vals@[m]@),
                                            vars_view(locals@) == bind_params(d.params@, vs, k as int),
                                            vars_wf(vars_view(locals@)),
                                        decreases d.params@.len() - k,
                                    {
                                        if let ASTNode::VariableDeclaration(p) = &d.params[k] {
                                            locals.push((p.name.clone(), copy_value(&vals[k])));
                                            assert(vars_view(locals@) =~= bind_params(d.params@, vs, k + 1));
                                        }
                                        k = k + 1;
                                    }
                                    let rb = run_statements(ast, funcs, fnode, 0, &mut locals, depth - 1, out);
                                    proof {
                                        let o2 = run_body(ast@, funcs@, ast@[i as int], 0, bind_params(d.params@, vs, d.params@.len() as int), (depth - 1) as nat).0;
                                        assert(lines_view(out@) =~= before + (o1 + o2));
                                        reveal_strlit("No return value");
                                    }
                                    match rb {
                                        Err(x) => Err(x),
                                        Ok(Some(v)) => Ok(v),
                                        Ok(None) => Ok(Value::String(text("No return value"))),
                                    }
                                },
                            }
                        },
                        _ => {
                            assert(false);
                            Err(RunError::NotAnExpression)
                        },
                    }
                },
            }
        },
        _ => {
            assert(lines_view(out@) =~= before + Seq::empty());
            Err(RunError::NotAnExpression)
        },
    }
}

proof fn lemma_args_len(
    ast: Seq<ASTNode>,
    funcs: Seq<usize>,
    node: ASTNode,
    i: int,
    vars: Seq<(Seq<char>, Val)>,
    depth: nat,
)
    requires
        0 <= i <= arg_count(node),
    ensures
        eval_args(ast, funcs, node, i, vars, depth).1 matches Ok(vs) ==> vs.len() == arg_count(node) - i,
    decreases arg_count(node) - i,
{
    if i < arg_count(node) {
        lemma_args_len(ast, funcs, node, i + 1, vars, depth);
    }
}

pub proof fn lemma_find_declares(ast: Seq<ASTNode>, funcs: Seq<usize>, name: Seq<char>)
    ensures
        find_function(ast, funcs, name) matches Some(i) ==> 0 <= i < ast.len()
            && ast[i] is FunctionDeclaration,
    decreases funcs.len(),
{
    if funcs.len() > 0 {
        lemma_find_declares(ast, funcs.drop_last(), name);
    }
}

/// Evaluates the arguments of the call node `node` from the `i`-th on,
/// appending their values to `vals`.
fn eval_arguments(
    ast: &[ASTNode],
    funcs: &Vec<usize>,
    node: &ASTNode,
    i: usize,
    env: &Vec<(String, Value)>,
    depth: u64,
    out: &mut Vec<Line>,
    vals: &mut Vec<Value>,
) -> (r: Result<(), RunError>)
    requires
        vars_wf(vars_view(env@)),
        forall|m: int| 0 <= m < old(vals)@.len() ==> val_wf(#[trigger] old(vals)@[m]@),
    ensures
        lines_view(final(out)@) == lines_view(old(out)@) + eval_args(
            ast@,
            funcs@,
            *node,
            i as int,
            vars_view(env@),
            depth as nat,
        ).0,
        match eval_args(ast@, funcs@, *node, i as int, vars_view(env@), depth as nat).1 {
            Ok(vs) => r is Ok && values_view(final(vals)@) == values_view(old(vals)@) + vs,
            Err(e) => r == Err::<(), RunError>(e),
        },
        forall|m: int| 0 <= m < final(vals)@.len() ==> val_wf(#[trigger] final(vals)@[m]@),
    decreases depth, *node, 0int, arg_count(*node) - i,
{
    let ghost before = lines_view(out@);
    let ghost vars = vars_view(env@);
    match node {
        ASTNode::FunctionCall(c) => {
            if i >= c.arguments.len() {
                assert(lines_view(out@) =~= before + Seq::empty());
                assert(values_view(vals@) =~= values_view(old(vals)@) + Seq::empty());
                return Ok(());
            }
            let v = evaluate(ast, funcs, &c.arguments[i], env, depth, out);
            match v {
                Err(x) => Err(x),
                Ok(v) => {
                    let ghost vals0 = values_view(vals@);
                    let ghost val = v@;
                    vals.push(v);
                    assert(values_view(vals@) =~= vals0.push(val));
                    let r = eval_arguments(ast, funcs, node, i + 1, env, depth, out, vals);
                    proof {
                        let o1 = eval(ast@, funcs@, c.arguments[i as int], vars, depth as nat).0;
                        let o2 = eval_args(ast@, funcs@, *node, i + 1, vars, depth as nat).0;
                        assert(lines_view(out@) =~= before + (o1 + o2));
                        if let Ok(vs) = eval_args(ast@, funcs@, *node, i + 1, vars, depth as nat).1 {
                            assert(values_view(vals@) =~= vals0 + (seq![val] + vs));
                        }
                    }
                    r
                },
            }
        },
        _ => {
            assert(lines_view(out@) =~= before + Seq::empty());
            assert(values_view(vals@) =~= values_view(old(vals)@) + Seq::empty());
            Ok(())
        },
    }
}

/// Runs the body of the declaration `fnode` from its `j`-th statement on,
/// with the variables `env`; stops at the first statement that yields a value.
fn run_statements(
    ast: &[ASTNode],
    funcs: &Vec<usize>,
    fnode: &ASTNode,
    j: usize,
    env: &mut Vec<(String, Value)>,
    depth: u64,
    out: &mut Vec<Line>,
) -> (r: Result<Option<Value>, RunError>)
    requires
        vars_wf(vars_view(old(env)@)),
    ensures
        lines_view(final(out)@) == lines_view(old(out)@) + run_body(
            ast@,
            funcs@,
            *fnode,
            j as int,
            vars_view(old(env)@),
            depth as nat,
        ).0,
        opt_result(r) == run_body(ast@, funcs@, *fnode, j as int, vars_view(old(env)@), depth as nat).1,
        r matches Ok(Some(v)) ==> val_wf(v@),
    decreases depth, *fnode, 0int, body_len(*fnode) - j,
{
    let ghost before = lines_view(out@);
    let ghost vars = vars_view(env@);
    match fnode {
        ASTNode::FunctionDeclaration(d) => {
            if j >= d.body.len() {
                assert(lines_view(out@) =~= before + Seq::empty());
                return Ok(None);
            }
            let r1 = execute(ast, funcs, &d.body[j], env, depth, out);
            match r1 {
                Err(x) => Err(x),
                Ok(Some(v)) => Ok(Some(v)),
                Ok(None) => {
                    let r2 = run_statements(ast, funcs, fnode, j + 1, env, depth, out);
                    proof {
                        let (o1, s1) = exec_stmt(ast@, funcs@, d.body[j as int], vars, depth as nat);
                        let o2 = run_body(ast@, funcs@, *fnode, j + 1, s1->Ok_0.1, depth as nat).0;
                        assert(lines_view(out@) =~= before + (o1 + o2));
                    }
                    r2
                },
            }
        },
        _ => {
            assert(lines_view(out@) =~= before + Seq::empty());
            Ok(None)
        },
    }
}

/// Executes one statement with the variables `env`. A `return` yields its
/// value; every other statement yields nothing.
pub fn execute(
    ast: &[ASTNode],
    funcs: &Vec<usize>,
    stmt: &ASTNode,
    env: &mut Vec<(String, Value)>,
    depth: u64,
    out: &mut Vec<Line>,
) -> (r: Result<Option<Value>, RunError>)
    requires
        vars_wf(vars_view(old(env)@)),
    ensures
        lines_view(final(out)@) == lines_view(old(out)@) + exec_stmt(
            ast@,
            funcs@,
            *stmt,
            vars_view(old(env)@),
            depth as nat,
        ).0,
        stmt_outcome(r, final(env)@, exec_stmt(ast@, funcs@, *stmt, vars_view(old(env)@), depth as nat).1),
        vars_wf(vars_view(final(env)@)),
        r matches Ok(Some(v)) ==> val_wf(v@),
    decreases depth, *stmt, 3int, 0int,
{
    let ghost before = lines_view(out@);
    let ghost vars = vars_view(env@);
    match stmt {
        ASTNode::Print(p) => {
            match evaluate(ast, funcs, &p.expression, env, depth, out) {
                Err(x) => Err(x),
                Ok(v) => {
                    let line = Line::Plain(render_value(&v));
                    let ghost mid = out@;
                    out.push(line);
                    proof {
                        assert(lines_view(out@) =~= lines_view(mid).push((false, render(v@))));
                        let o = eval(ast@, funcs@, *p.expression, vars, depth as nat).0;
                        assert(lines_view(out@) =~= before + o.push((false, render(v@))));
                    }
                    Ok(None)
                },
            }
        },
        ASTNode::OwO(p) => {
            match evaluate(ast, funcs, &p.expression, env, depth, out) {
                Err(x) => Err(x),
                Ok(v) => {
                    let styled = match &v {
                        Value::String(_) => true,
                        _ => false,
                    };
                    let t = render_value(&v);
                    let line = if styled { Line::Styled(t) } else { Line::Plain(t) };
                    let ghost mid = out@;
                    out.push(line);
                    proof {
                        assert(lines_view(out@) =~= lines_view(mid).push((v@ is Text, render(v@))));
                        let o = eval(ast@, funcs@, *p.expression, vars, depth as nat).0;
                        assert(lines_view(out@) =~= before + o.push((v@ is Text, render(v@))));
                    }
                    Ok(None)
                },
            }
        },
        ASTNode::KindOf(_) | ASTNode::FunctionCall(_) => {
            match evaluate(ast, funcs, stmt, env, depth, out) {
                Err(x) => Err(x),
                Ok(_) => Ok(None),
            }
        },
        ASTNode::Return(rn) => {
            match evaluate(ast, funcs, &rn.value, env, depth, out) {
                Err(x) => Err(x),
                Ok(v) => Ok(Some(v)),
            }
        },
        ASTNode::VariableDeclaration(d) => {
            match evaluate(ast, funcs, &d.value, env, depth, out) {
                Err(x) => Err(x),
                Ok(v) => {
                    let ghost val = v@;
                    env.push((d.name.clone(), v));
                    assert(vars_view(env@) =~= vars.push((d.name@, val)));
                    Ok(None)
                },
            }
        },
        _ => {
            assert(lines_view(out@) =~= before + Seq::empty());
            Ok(None)
        },
    }
}

/// The indices in `ast`, among the first `n`, of the function declarations, in order.
pub open spec fn fn_indices(ast: Seq<ASTNode>, n: int) -> Seq<usize>
    decreases n,
{
    if n <= 0 {
        Seq::empty()
    } else {
        let prev = fn_indices(ast, n - 1);
        if ast[n - 1] is FunctionDeclaration {
            prev.push((n - 1) as usize)
        } else {
            prev
        }
    }
}

/// The kinds of statement that run at the top level of a program.
pub open spec fn runs_at_top(node: ASTNode) -> bool {
    node is OwO || node is Print || node is FunctionCall || node is VariableDeclaration
        || node is KindOf
}

/// Runs the top-level statements of `ast` from the `k`-th on.
pub open spec fn run_from(
    ast: Seq<ASTNode>,
    funcs: Seq<usize>,
    k: int,
    vars: Seq<(Seq<char>, Val)>,
) -> (Seq<(bool, Seq<char>)>, Result<(), RunError>)
    decreases ast.len() - k,
{
    if k < 0 || k >= ast.len() {
        (Seq::empty(), Ok(()))
    } else if runs_at_top(ast[k]) {
        let (o, r) = exec_stmt(ast, funcs, ast[k], vars, MAX_CALL_DEPTH as nat);
        match r {
            Err(x) => (o, Err(x)),
            Ok((_, vars2)) => {
                let (o2, r2) = run_from(ast, funcs, k + 1, vars2);
                (o + o2, r2)
            },
        }
    } else {
        run_from(ast, funcs, k + 1, vars)
    }
}

/// What running a whole program does: the lines it prints, and how it ends.
/// Every function declaration at the top level is registered first (a later
/// one of the same name wins); then the top-level statements run in order
/// with one global set of variables.
pub open spec fn program(ast: Seq<ASTNode>) -> (Seq<(bool, Seq<char>)>, Result<(), RunError>) {
    run_from(ast, fn_indices(ast, ast.len() as int), 0, Seq::empty())
}

/// Runs the top-level statements of `ast` from the `k`-th on, with the
/// global variables `env`.
fn run_top(
    ast: &[ASTNode],
    funcs: &Vec<usize>,
    k: usize,
    env: &mut Vec<(String, Value)>,
    out: &mut Vec<Line>,
) -> (r: Result<(), RunError>)
    requires
        vars_wf(vars_view(old(env)@)),
        k <= ast@.len(),
    ensures
        lines_view(final(out)@) == lines_view(old(out)@) + run_from(
            ast@,
            funcs@,
            k as int,
            vars_view(old(env)@),
        ).0,
        r == run_from(ast@, funcs@, k as int, vars_view(old(env)@)).1,
    decreases ast@.len() - k,
{
    let ghost before = lines_view(out@);
    let ghost vars = vars_view(env@);
    if k >= ast.len() {
        assert(lines_view(out@) =~= before + Seq::empty());
        return Ok(());
    }
    let node = &ast[k];
    let top = match node {
        ASTNode::OwO(_) | ASTNode::Print(_) | ASTNode::FunctionCall(_)
        | ASTNode::VariableDeclaration(_) | ASTNode::KindOf(_) => true,
        _ => false,
    };
    if !top {
        return run_top(ast, funcs, k + 1, env, out);
    }
    let r = execute(ast, funcs, node, env, MAX_CALL_DEPTH, out);
    match r {
        Err(x) => Err(x),
        Ok(_) => {
            let r2 = run_top(ast, funcs, k + 1, env, out);
            proof {
                let (o, s1) = exec_stmt(ast@, funcs@, *node, vars, MAX_CALL_DEPTH as nat);
                let o2 = run_from(ast@, funcs@, k + 1, s1->Ok_0.1).0;
                assert(lines_view(out@) =~= before + (o + o2));
            }
            r2
        },
    }
}

/// Runs a program, appending what it prints to `out`. The first error stops
/// the run; the lines printed before it stay in `out`.
pub fn run(ast: &[ASTNode], out: &mut Vec<Line>) -> (r: Result<(), RunError>)
    ensures
        lines_view(final(out)@) == lines_view(old(out)@) + program(ast@).0,
        r == program(ast@).1,
{
    let mut funcs: Vec<usize> = Vec::new();
    let mut i: usize = 0;
    while i < ast.len()
        invariant
            i <= ast@.len(),
            funcs@ == fn_indices(ast@, i as int),
        decreases ast@.len() - i,
    {
        if let ASTNode::FunctionDeclaration(_) = &ast[i] {
            funcs.push(i);
        }
        i = i + 1;
    }
    let mut env: Vec<(String, Value)> = Vec::new();
    assert(vars_view(env@) =~= Seq::empty());
    run_top(ast, &funcs, 0, &mut env, out)
}

} // verus!

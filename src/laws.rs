//! Facts about whole programs that follow from the semantics.
use vstd::prelude::*;
use crate::ast::{ASTNode, Ast};
use crate::number::{literal_value, ratio, fits, lemma_reduce, num_sum, num_diff, num_prod, num_quot};
use crate::parser::{Toks, ParseError, bin, p_expr, p_add_rest, p_mul, p_mul_rest, p_primary};
use crate::tokens::TokenType;
use crate::number::{Number, add_spec, sub_spec, mul_spec, div_spec};
use crate::interpreter::{
    Val, RunError, eval, call, run_body, exec_stmt, binop, arith, kind_name, render,
    lookup_var, find_function, no_return,
};

verus! {

broadcast use vstd::std_specs::vec::axiom_vec_index_decreases;

/// `n` is the finite number `num / den`.
pub open spec fn has_value(n: Number, num: int, den: int) -> bool {
    n matches Number::Ratio { num: a, den: b } && a * den == num * b
}

/// Arithmetic on finite numbers is exact: whenever an operation on two
/// fractions gives a fraction, it is the exact sum, difference, product or
/// quotient.
pub proof fn lemma_arithmetic_is_exact(n1: i128, d1: i128, n2: i128, d2: i128)
    requires
        d1 > 0,
        d2 > 0,
    ensures
        add_spec(Number::Ratio { num: n1, den: d1 }, Number::Ratio { num: n2, den: d2 }) matches Some(
            r,
        ) ==> has_value(r, n1 * d2 + n2 * d1, d1 * d2),
        sub_spec(Number::Ratio { num: n1, den: d1 }, Number::Ratio { num: n2, den: d2 }) matches Some(
            r,
        ) ==> has_value(r, n1 * d2 - n2 * d1, d1 * d2),
        mul_spec(Number::Ratio { num: n1, den: d1 }, Number::Ratio { num: n2, den: d2 }) matches Some(
            r,
        ) ==> has_value(r, n1 * n2, d1 * d2),
        n2 != 0 ==> (div_spec(Number::Ratio { num: n1, den: d1 }, Number::Ratio { num: n2, den: d2 })
            matches Some(r) ==> has_value(r, n1 * d2, d1 * n2)),
{
    assert(d1 * d2 > 0) by (nonlinear_arith)
        requires d1 > 0, d2 > 0;
    lemma_ratio(n1 * d2 + n2 * d1, d1 * d2);
    lemma_ratio(n1 * d2 - n2 * d1, d1 * d2);
    lemma_ratio(n1 * n2, d1 * d2);
    lemma_ratio(n1 + n2, d1 as int);
    lemma_ratio(n1 - n2, d1 as int);
    if d1 == d2 {
        if let Some(r) = ratio(n1 + n2, d1 as int) {
            lemma_scale(r, n1 + n2, d1 as int, d1 as int);
            assert((n1 + n2) * d1 == n1 * d2 + n2 * d1) by (nonlinear_arith)
                requires d1 == d2;
        }
        if let Some(r) = ratio(n1 - n2, d1 as int) {
            lemma_scale(r, n1 - n2, d1 as int, d1 as int);
            assert((n1 - n2) * d1 == n1 * d2 - n2 * d1) by (nonlinear_arith)
                requires d1 == d2;
        }
    }
    if n2 > 0 {
        assert(d1 * n2 > 0) by (nonlinear_arith)
            requires d1 > 0, n2 > 0;
        lemma_ratio(n1 * d2, d1 * n2);
    }
    if n2 < 0 {
        assert(d1 * (-n2) > 0) by (nonlinear_arith)
            requires d1 > 0, n2 < 0;
        lemma_ratio(n1 * (-d2), d1 * (-n2));
        if let Some(r) = ratio(n1 * (-d2), d1 * (-n2)) {
            lemma_scale(r, n1 * (-d2), d1 * (-n2), -1);
            assert((n1 * (-d2)) * -1 == n1 * d2 && (d1 * (-n2)) * -1 == d1 * n2) by (nonlinear_arith);
        }
    }
}

proof fn lemma_ratio(n: int, d: int)
    requires
        d > 0,
    ensures
        ratio(n, d) matches Some(r) ==> has_value(r, n, d) && r.wf(),
{
    if fits(n) && fits(d) {
        lemma_reduce(n, d);
    }
}

proof fn lemma_scale(r: Number, num: int, den: int, k: int)
    requires
        has_value(r, num, den),
    ensures
        has_value(r, num * k, den * k),
{
    if let Number::Ratio { num: a, den: b } = r {
        assert(a * (den * k) == (num * k) * b) by (nonlinear_arith)
            requires a * den == num * b;
    }
}

/// A tree of number literals and the four operators.
pub open spec fn numeric_tree(n: ASTNode) -> bool
    decreases n,
{
    match n {
        ASTNode::NumberLiteral(x) => x.value.wf(),
        ASTNode::BinaryExpression(e) => (e.operator@ == "+"@ || e.operator@ == "-"@
            || e.operator@ == "*"@ || e.operator@ == "/"@) && numeric_tree(*e.left)
            && numeric_tree(*e.right),
        _ => false,
    }
}

/// The value of such a tree by the language's arithmetic, operands before
/// operators.
pub open spec fn tree_value(n: ASTNode) -> Number
    decreases n,
{
    match n {
        ASTNode::NumberLiteral(x) => x.value,
        ASTNode::BinaryExpression(e) => arith(e.operator@, tree_value(*e.left), tree_value(*e.right)),
        _ => Number::NaN,
    }
}

/// A tree of number literals and the four operators always evaluates to a
/// number, whatever the variables, functions and call depth: the value of
/// the tree with the grouping that the tree records; it prints nothing.
pub proof fn lemma_numeric_eval(
    ast: Seq<ASTNode>,
    funcs: Seq<usize>,
    n: ASTNode,
    vars: Seq<(Seq<char>, Val)>,
    depth: nat,
)
    requires
        numeric_tree(n),
    ensures
        eval(ast, funcs, n, vars, depth).0 == Seq::<(bool, Seq<char>)>::empty(),
        eval(ast, funcs, n, vars, depth).1 == Ok::<Val, RunError>(Val::Num(tree_value(n))),
    decreases n,
{
    if let ASTNode::BinaryExpression(e) = n {
        lemma_numeric_eval(ast, funcs, *e.left, vars, depth);
        lemma_numeric_eval(ast, funcs, *e.right, vars, depth);
        assert(Seq::<(bool, Seq<char>)>::empty() + Seq::empty() =~= Seq::<(bool, Seq<char>)>::empty());
    }
}

/// The operations that never fail give the exact result whenever it fits
/// in 128 bits.
pub proof fn lemma_exact_when_it_fits(a: Number, b: Number)
    ensures
        add_spec(a, b) matches Some(r) ==> num_sum(a, b) == r,
        sub_spec(a, b) matches Some(r) ==> num_diff(a, b) == r,
        mul_spec(a, b) matches Some(r) ==> num_prod(a, b) == r,
        div_spec(a, b) matches Some(r) ==> num_quot(a, b) == r,
{
}

/// Joining three strings with `+` gives the same text whichever pair is
/// joined first.
pub proof fn lemma_concat_associative(op: String, a: Seq<char>, b: Seq<char>, c: Seq<char>)
    requires
        op@ == "+"@,
    ensures
        binop(op, Val::Text(a), Val::Text(b)) == Ok::<Val, RunError>(Val::Text(a + b)),
        binop(op, Val::Text(a + b), Val::Text(c)) == binop(op, Val::Text(a), Val::Text(b + c)),
        binop(op, Val::Text(a + b), Val::Text(c)) == Ok::<Val, RunError>(Val::Text(a + b + c)),
{
    assert(a + b + c =~= a + (b + c));
}

/// A reference to a variable that was never bound fails with an
/// undefined-variable error.
pub proof fn lemma_undefined_variable(
    ast: Seq<ASTNode>,
    funcs: Seq<usize>,
    n: ASTNode,
    vars: Seq<(Seq<char>, Val)>,
    depth: nat,
)
    requires
        n is VariableReference,
        lookup_var(vars, n->VariableReference_0.name@) is None,
    ensures
        eval(ast, funcs, n, vars, depth).1 == Err::<Val, RunError>(
            RunError::UndefinedVariable(n->VariableReference_0.name),
        ),
{
}

/// After a declaration of `x` runs, a reference to `x` gives exactly the
/// value that was assigned.
pub proof fn lemma_declared_variable(
    ast: Seq<ASTNode>,
    funcs: Seq<usize>,
    decl: ASTNode,
    reference: ASTNode,
    vars: Seq<(Seq<char>, Val)>,
    depth: nat,
)
    requires
        decl is VariableDeclaration,
        reference is VariableReference,
        reference->VariableReference_0.name@ == decl->VariableDeclaration_0.name@,
        eval(ast, funcs, *decl->VariableDeclaration_0.value, vars, depth).1 is Ok,
    ensures
        exec_stmt(ast, funcs, decl, vars, depth).1 is Ok,
        eval(ast, funcs, reference, exec_stmt(ast, funcs, decl, vars, depth).1->Ok_0.1, depth).1
            == eval(ast, funcs, *decl->VariableDeclaration_0.value, vars, depth).1,
{
    let v = eval(ast, funcs, *decl->VariableDeclaration_0.value, vars, depth).1->Ok_0;
    let vars2 = vars.push((decl->VariableDeclaration_0.name@, v));
    assert(vars2.drop_last() =~= vars);
}

/// The type query names the kind of its operand's value, whatever the value:
/// `number`, `string` or `boolean`, three different names.
pub proof fn lemma_kind_query(
    ast: Seq<ASTNode>,
    funcs: Seq<usize>,
    n: ASTNode,
    vars: Seq<(Seq<char>, Val)>,
    depth: nat,
)
    requires
        n is KindOf,
    ensures
        eval(ast, funcs, *n->KindOf_0.expression, vars, depth).1 matches Ok(v) ==> eval(
            ast,
            funcs,
            n,
            vars,
            depth,
        ).1 == Ok::<Val, RunError>(Val::Text(kind_name(v))),
        forall|a: Number| #[trigger] kind_name(Val::Num(a)) == "number"@,
        forall|s: Seq<char>| #[trigger] kind_name(Val::Text(s)) == "string"@,
        forall|b: i8| #[trigger] kind_name(Val::Flag(b)) == "boolean"@,
        "number"@ != "string"@,
        "number"@ != "boolean"@,
        "string"@ != "boolean"@,
{
    reveal_strlit("number");
    reveal_strlit("string");
    reveal_strlit("boolean");
    assert("number"@[0] != "string"@[0]);
    assert("number"@[0] != "boolean"@[0]);
    assert("string"@[0] != "boolean"@[0]);
}

/// Running a body none of whose statements is a `return` never yields a value.
pub proof fn lemma_body_without_return(
    ast: Seq<ASTNode>,
    funcs: Seq<usize>,
    fnode: ASTNode,
    j: int,
    vars: Seq<(Seq<char>, Val)>,
    depth: nat,
)
    requires
        fnode is FunctionDeclaration,
        0 <= j,
        forall|k: int|
            0 <= k < fnode->FunctionDeclaration_0.body@.len() ==> !(
            #[trigger] fnode->FunctionDeclaration_0.body@[k] is Return),
    ensures
        run_body(ast, funcs, fnode, j, vars, depth).1 matches Ok(x) ==> x is None,
    decreases fnode->FunctionDeclaration_0.body@.len() - j,
{
    let d = fnode->FunctionDeclaration_0;
    if j < d.body@.len() {
        let (o1, r1) = exec_stmt(ast, funcs, d.body[j], vars, depth);
        assert(!(d.body@[j] is Return));
        if let Ok((_, vars2)) = r1 {
            lemma_body_without_return(ast, funcs, fnode, j + 1, vars2, depth);
        }
    }
}

/// A call of a function whose body holds no `return` yields the fixed
/// no-return text, and printing it writes that text.
pub proof fn lemma_call_without_return(
    ast: Seq<ASTNode>,
    funcs: Seq<usize>,
    n: ASTNode,
    vars: Seq<(Seq<char>, Val)>,
    depth: nat,
)
    requires
        n is FunctionCall,
        find_function(ast, funcs, n->FunctionCall_0.name@) matches Some(i) && (forall|k: int|
            0 <= k < ast[i]->FunctionDeclaration_0.body@.len() ==> !(
            #[trigger] ast[i]->FunctionDeclaration_0.body@[k] is Return)),
        call(ast, funcs, n, vars, depth).1 is Ok,
    ensures
        call(ast, funcs, n, vars, depth).1 == Ok::<Val, RunError>(Val::Text(no_return())),
        render(Val::Text(no_return())) == "No return value"@,
{
    let i = find_function(ast, funcs, n->FunctionCall_0.name@)->Some_0;
    crate::interpreter::lemma_find_declares(ast, funcs, n->FunctionCall_0.name@);
    let c = n->FunctionCall_0;
    let d = ast[i]->FunctionDeclaration_0;
    if c.arguments.len() == d.params.len() && depth > 0 {
        let (o1, ra) = crate::interpreter::eval_args(ast, funcs, n, 0, vars, depth);
        if let Ok(vals) = ra {
            let locals = crate::interpreter::bind_params(d.params@, vals, d.params@.len() as int);
            lemma_body_without_return(ast, funcs, ast[i], 0, locals, (depth - 1) as nat);
        }
    }
}

/// `a + b * c` parses as `a + (b * c)`: the product binds tighter than the sum.
pub proof fn lemma_product_binds_tighter(toks: Toks, a: Seq<char>, b: Seq<char>, c: Seq<char>)
    requires
        toks == seq![
            (TokenType::Number, a),
            (TokenType::Operator, "+"@),
            (TokenType::Number, b),
            (TokenType::Operator, "*"@),
            (TokenType::Number, c),
        ],
        literal_value(a) is Some,
        literal_value(b) is Some,
        literal_value(c) is Some,
    ensures
        p_expr(toks, 0) == Ok::<(Ast, nat), ParseError>(
            (
                bin(
                    "+"@,
                    Ast::NumberLiteral(literal_value(a)->Some_0),
                    bin(
                        "*"@,
                        Ast::NumberLiteral(literal_value(b)->Some_0),
                        Ast::NumberLiteral(literal_value(c)->Some_0),
                    ),
                ),
                4,
            ),
        ),
{
    reveal_strlit("+");
    reveal_strlit("-");
    reveal_strlit("*");
    reveal_strlit("/");
    let na = Ast::NumberLiteral(literal_value(a)->Some_0);
    let nb = Ast::NumberLiteral(literal_value(b)->Some_0);
    let nc = Ast::NumberLiteral(literal_value(c)->Some_0);
    assert(p_mul_rest(toks, 5, nc) == Ok::<(Ast, nat), ParseError>((nc, 0)));
    assert(p_primary(toks, 4) == Ok::<(Ast, nat), ParseError>((nc, 0)));
    assert(p_mul_rest(toks, 3, nb) == Ok::<(Ast, nat), ParseError>((bin("*"@, nb, nc), 2)));
    assert(p_primary(toks, 2) == Ok::<(Ast, nat), ParseError>((nb, 0)));
    assert(p_mul(toks, 2) == Ok::<(Ast, nat), ParseError>((bin("*"@, nb, nc), 2)));
    assert(p_add_rest(toks, 5, bin("+"@, na, bin("*"@, nb, nc))) == Ok::<(Ast, nat), ParseError>(
        (bin("+"@, na, bin("*"@, nb, nc)), 0),
    ));
    assert(p_add_rest(toks, 1, na) == Ok::<(Ast, nat), ParseError>(
        (bin("+"@, na, bin("*"@, nb, nc)), 4),
    ));
    assert("+"@ != "*"@ && "+"@ != "/"@) by {
        assert("+"@[0] != "*"@[0] && "+"@[0] != "/"@[0]);
    }
    assert(p_mul_rest(toks, 1, na) == Ok::<(Ast, nat), ParseError>((na, 0)));
    assert(p_primary(toks, 0) == Ok::<(Ast, nat), ParseError>((na, 0)));
    assert(p_mul(toks, 0) == Ok::<(Ast, nat), ParseError>((na, 0)));
}

} // verus!

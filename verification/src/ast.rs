//! The abstract expression threaded through the recursive descent: leaves for
//! numbers and identifiers, transparent parenthesis wrappers, and binary
//! operator applications.  Its spec functions define the prefix and postfix
//! renderings, the interned graph nodes, and a postfix round-trip law.
use vstd::prelude::*;
use crate::graph::{gr_after, node_hash, Node, SGr};
use crate::hashing::lexeme_hash;
use crate::lexic::{is_digit, is_word_char};
use crate::symbols::{sym_after, SSym};
use crate::token::{STok, TokenType};

verus! {

/// The mathematical model of an analyzed expression.
#[verifier::ext_equal]
pub ghost enum SExpr {
    Num { lexeme: Seq<char>, position: int },
    Id { lexeme: Seq<char>, position: int },
    Paren { inner: Box<SExpr> },
    Bin { op: TokenType, left: Box<SExpr>, right: Box<SExpr> },
}

/// An analyzed expression.  A `Paren` node only records explicit grouping: it
/// changes no rendering and no value.
#[derive(Debug)]
pub enum Expr {
    Num { lexeme: String, position: usize },
    Id { lexeme: String, position: usize },
    Paren { inner: Box<Expr> },
    Bin { op: TokenType, left: Box<Expr>, right: Box<Expr> },
}

pub open spec fn expr_view(e: Expr) -> SExpr
    decreases e,
{
    match e {
        Expr::Num { lexeme, position } => SExpr::Num {
            lexeme: lexeme@,
            position: position as int,
        },
        Expr::Id { lexeme, position } => SExpr::Id { lexeme: lexeme@, position: position as int },
        Expr::Paren { inner } => SExpr::Paren { inner: Box::new(expr_view(*inner)) },
        Expr::Bin { op, left, right } => SExpr::Bin {
            op,
            left: Box::new(expr_view(*left)),
            right: Box::new(expr_view(*right)),
        },
    }
}

impl View for Expr {
    type V = SExpr;

    open spec fn view(&self) -> SExpr {
        expr_view(*self)
    }
}

impl Clone for Expr {
    fn clone(&self) -> (r: Self)
        ensures
            r@ == self@,
        decreases self,
    {
        match self {
            Expr::Num { lexeme, position } => Expr::Num {
                lexeme: lexeme.clone(),
                position: *position,
            },
            Expr::Id { lexeme, position } => Expr::Id {
                lexeme: lexeme.clone(),
                position: *position,
            },
            Expr::Paren { inner } => Expr::Paren { inner: Box::new((**inner).clone()) },
            Expr::Bin { op, left, right } => Expr::Bin {
                op: *op,
                left: Box::new((**left).clone()),
                right: Box::new((**right).clone()),
            },
        }
    }
}

/// The rendering of a binary operator kind.
pub open spec fn op_char(t: TokenType) -> char {
    match t {
        TokenType::Plus => '+',
        TokenType::Minus => '-',
        TokenType::Asterisk => '*',
        TokenType::Slash => '/',
        _ => '?',
    }
}

pub open spec fn is_bin_op(t: TokenType) -> bool {
    t == TokenType::Plus || t == TokenType::Minus || t == TokenType::Asterisk || t
        == TokenType::Slash
}

/// A well-formed expression: leaf lexemes are non-empty runs of the right
/// character classes and every operator is one of the four binary operators.
pub open spec fn wf_expr(e: SExpr) -> bool
    decreases e,
{
    match e {
        SExpr::Num { lexeme, .. } => lexeme.len() > 0 && forall|i: int|
            0 <= i < lexeme.len() ==> is_digit(#[trigger] lexeme[i]),
        SExpr::Id { lexeme, .. } => lexeme.len() > 0 && forall|i: int|
            0 <= i < lexeme.len() ==> is_word_char(#[trigger] lexeme[i]),
        SExpr::Paren { inner } => wf_expr(*inner),
        SExpr::Bin { op, left, right } => is_bin_op(op) && wf_expr(*left) && wf_expr(*right),
    }
}

/// The prefix rendering: `op left right`, separated by single spaces;
/// parentheses are transparent.
pub open spec fn spec_prefix(e: SExpr) -> Seq<char>
    decreases e,
{
    match e {
        SExpr::Num { lexeme, .. } => lexeme,
        SExpr::Id { lexeme, .. } => lexeme,
        SExpr::Paren { inner } => spec_prefix(*inner),
        SExpr::Bin { op, left, right } => seq![op_char(op), ' '] + spec_prefix(*left) + seq![' ']
            + spec_prefix(*right),
    }
}

/// The postfix rendering: `left right op`, separated by single spaces;
/// parentheses are transparent.
pub open spec fn spec_postfix(e: SExpr) -> Seq<char>
    decreases e,
{
    match e {
        SExpr::Num { lexeme, .. } => lexeme,
        SExpr::Id { lexeme, .. } => lexeme,
        SExpr::Paren { inner } => spec_postfix(*inner),
        SExpr::Bin { op, left, right } => spec_postfix(*left) + seq![' '] + spec_postfix(*right)
            + seq![' ', op_char(op)],
    }
}

/// The number of operator applications in an expression.
pub open spec fn internal_count(e: SExpr) -> nat
    decreases e,
{
    match e {
        SExpr::Num { .. } => 0,
        SExpr::Id { .. } => 0,
        SExpr::Paren { inner } => internal_count(*inner),
        SExpr::Bin { op, left, right } => internal_count(*left) + internal_count(*right) + 1,
    }
}

/// The graph node that represents the root of an expression.
pub open spec fn node_of(e: SExpr) -> Node
    decreases e,
{
    match e {
        SExpr::Num { lexeme, .. } => Node {
            op: TokenType::Number,
            is_leaf: true,
            left: lexeme_hash(lexeme),
            right: 0,
        },
        SExpr::Id { lexeme, .. } => Node {
            op: TokenType::Id,
            is_leaf: true,
            left: lexeme_hash(lexeme),
            right: 0,
        },
        SExpr::Paren { inner } => node_of(*inner),
        SExpr::Bin { op, left, right } => Node {
            op,
            is_leaf: false,
            left: node_hash(node_of(*left)),
            right: node_hash(node_of(*right)),
        },
    }
}

/// The identity of an expression in the graph: the hash of its root node.
pub open spec fn node_id(e: SExpr) -> u64 {
    node_hash(node_of(e))
}

/// Every node handed to the graph while analyzing an expression, in call
/// order: a leaf when it is read, an internal node after both operands.
pub open spec fn post_nodes(e: SExpr) -> Seq<Node>
    decreases e,
{
    match e {
        SExpr::Num { .. } => seq![node_of(e)],
        SExpr::Id { .. } => seq![node_of(e)],
        SExpr::Paren { inner } => post_nodes(*inner),
        SExpr::Bin { op, left, right } => post_nodes(*left) + post_nodes(*right) + seq![node_of(e)],
    }
}

/// Every token handed to the symbol table while analyzing an expression, in
/// call order: the leaves, left to right.
pub open spec fn leaf_toks(e: SExpr) -> Seq<STok>
    decreases e,
{
    match e {
        SExpr::Num { lexeme, position } => seq![
            STok { kind: TokenType::Number, lexeme, position },
        ],
        SExpr::Id { lexeme, position } => seq![STok { kind: TokenType::Id, lexeme, position }],
        SExpr::Paren { inner } => leaf_toks(*inner),
        SExpr::Bin { op, left, right } => leaf_toks(*left) + leaf_toks(*right),
    }
}

/// The symbol table model after interning a sequence of tokens in order.
pub open spec fn sym_after_all(s: SSym, ts: Seq<STok>) -> SSym
    decreases ts.len(),
{
    if ts.len() == 0 {
        s
    } else {
        sym_after_all(sym_after(s, ts[0]), ts.skip(1))
    }
}

/// The graph model after interning a sequence of nodes in order.
pub open spec fn gr_after_all(g: SGr, ns: Seq<Node>) -> SGr
    decreases ns.len(),
{
    if ns.len() == 0 {
        g
    } else {
        gr_after_all(gr_after(g, ns[0]), ns.skip(1))
    }
}

pub proof fn lemma_sym_after_all_concat(s: SSym, a: Seq<STok>, b: Seq<STok>)
    ensures
        sym_after_all(s, a + b) == sym_after_all(sym_after_all(s, a), b),
    decreases a.len(),
{
    if a.len() == 0 {
        assert(a + b =~= b);
    } else {
        assert((a + b)[0] == a[0]);
        assert((a + b).skip(1) =~= a.skip(1) + b);
        lemma_sym_after_all_concat(sym_after(s, a[0]), a.skip(1), b);
    }
}

pub proof fn lemma_gr_after_all_concat(g: SGr, a: Seq<Node>, b: Seq<Node>)
    ensures
        gr_after_all(g, a + b) == gr_after_all(gr_after_all(g, a), b),
    decreases a.len(),
{
    if a.len() == 0 {
        assert(a + b =~= b);
    } else {
        assert((a + b)[0] == a[0]);
        assert((a + b).skip(1) =~= a.skip(1) + b);
        lemma_gr_after_all_concat(gr_after(g, a[0]), a.skip(1), b);
    }
}

/// Whether a character renders one of the four operators.
pub open spec fn is_op_char(c: char) -> bool {
    c == '+' || c == '-' || c == '*' || c == '/'
}

/// How many operator characters a rendering holds.
pub open spec fn count_ops(s: Seq<char>) -> nat
    decreases s.len(),
{
    if s.len() == 0 {
        0nat
    } else {
        (if is_op_char(s[0]) {
            1nat
        } else {
            0nat
        }) + count_ops(s.skip(1))
    }
}

pub proof fn lemma_count_ops_concat(a: Seq<char>, b: Seq<char>)
    ensures
        count_ops(a + b) == count_ops(a) + count_ops(b),
    decreases a.len(),
{
    if a.len() == 0 {
        assert(a + b =~= b);
    } else {
        assert((a + b)[0] == a[0]);
        assert((a + b).skip(1) =~= a.skip(1) + b);
        lemma_count_ops_concat(a.skip(1), b);
    }
}

pub proof fn lemma_count_ops_none(s: Seq<char>)
    requires
        forall|i: int| 0 <= i < s.len() ==> !is_op_char(#[trigger] s[i]),
    ensures
        count_ops(s) == 0,
    decreases s.len(),
{
    if s.len() > 0 {
        lemma_count_ops_none(s.skip(1));
    }
}

/// How many of the nodes handed to the graph are internal.
pub open spec fn count_internal(ns: Seq<Node>) -> nat
    decreases ns.len(),
{
    if ns.len() == 0 {
        0nat
    } else {
        (if !ns[0].is_leaf {
            1nat
        } else {
            0nat
        }) + count_internal(ns.skip(1))
    }
}

pub proof fn lemma_count_internal_concat(a: Seq<Node>, b: Seq<Node>)
    ensures
        count_internal(a + b) == count_internal(a) + count_internal(b),
    decreases a.len(),
{
    if a.len() == 0 {
        assert(a + b =~= b);
    } else {
        assert((a + b)[0] == a[0]);
        assert((a + b).skip(1) =~= a.skip(1) + b);
        lemma_count_internal_concat(a.skip(1), b);
    }
}

proof fn lemma_count_ops_single(c: char)
    ensures
        count_ops(seq![c]) == if is_op_char(c) {
            1nat
        } else {
            0nat
        },
{
    assert(count_ops(Seq::<char>::empty()) == 0);
    assert(seq![c][0] == c);
    assert(seq![c].skip(1) =~= Seq::<char>::empty());
}

proof fn lemma_count_ops_pair(c: char, d: char)
    ensures
        count_ops(seq![c, d]) == count_ops(seq![c]) + count_ops(seq![d]),
{
    assert(seq![c, d][0] == c);
    assert(seq![c, d].skip(1) =~= seq![d]);
    lemma_count_ops_single(c);
}

proof fn lemma_prefix_ops(e: SExpr)
    requires
        wf_expr(e),
    ensures
        count_ops(spec_prefix(e)) == internal_count(e),
    decreases e,
{
    match e {
        SExpr::Num { lexeme, .. } => {
            lemma_count_ops_none(lexeme);
        },
        SExpr::Id { lexeme, .. } => {
            lemma_count_ops_none(lexeme);
        },
        SExpr::Paren { inner } => {
            lemma_prefix_ops(*inner);
        },
        SExpr::Bin { op, left, right } => {
            lemma_prefix_ops(*left);
            lemma_prefix_ops(*right);
            let head = seq![op_char(op), ' '];
            let mid = seq![' '];
            lemma_count_ops_pair(op_char(op), ' ');
            lemma_count_ops_single(op_char(op));
            lemma_count_ops_single(' ');
            assert(count_ops(head) == 1);
            assert(count_ops(mid) == 0);
            lemma_count_ops_concat(head, spec_prefix(*left));
            lemma_count_ops_concat(head + spec_prefix(*left), mid);
            lemma_count_ops_concat(head + spec_prefix(*left) + mid, spec_prefix(*right));
            assert(spec_prefix(e) == head + spec_prefix(*left) + mid + spec_prefix(*right));
        },
    }
}

proof fn lemma_postfix_ops(e: SExpr)
    requires
        wf_expr(e),
    ensures
        count_ops(spec_postfix(e)) == internal_count(e),
    decreases e,
{
    match e {
        SExpr::Num { lexeme, .. } => {
            lemma_count_ops_none(lexeme);
        },
        SExpr::Id { lexeme, .. } => {
            lemma_count_ops_none(lexeme);
        },
        SExpr::Paren { inner } => {
            lemma_postfix_ops(*inner);
        },
        SExpr::Bin { op, left, right } => {
            lemma_postfix_ops(*left);
            lemma_postfix_ops(*right);
            let mid = seq![' '];
            let tail = seq![' ', op_char(op)];
            lemma_count_ops_pair(' ', op_char(op));
            lemma_count_ops_single(op_char(op));
            lemma_count_ops_single(' ');
            assert(count_ops(mid) == 0);
            assert(count_ops(tail) == 1);
            lemma_count_ops_concat(spec_postfix(*left), mid);
            lemma_count_ops_concat(spec_postfix(*left) + mid, spec_postfix(*right));
            lemma_count_ops_concat(spec_postfix(*left) + mid + spec_postfix(*right), tail);
            assert(spec_postfix(e) == spec_postfix(*left) + mid + spec_postfix(*right) + tail);
        },
    }
}

proof fn lemma_post_nodes_internal(e: SExpr)
    requires
        wf_expr(e),
    ensures
        count_internal(post_nodes(e)) == internal_count(e),
    decreases e,
{
    match e {
        SExpr::Num { .. } => {
            assert(count_internal(Seq::<Node>::empty()) == 0);
            assert(post_nodes(e)[0] == node_of(e) && node_of(e).is_leaf);
            assert(post_nodes(e).skip(1) =~= Seq::<Node>::empty());
        },
        SExpr::Id { .. } => {
            assert(count_internal(Seq::<Node>::empty()) == 0);
            assert(post_nodes(e)[0] == node_of(e) && node_of(e).is_leaf);
            assert(post_nodes(e).skip(1) =~= Seq::<Node>::empty());
        },
        SExpr::Paren { inner } => {
            lemma_post_nodes_internal(*inner);
        },
        SExpr::Bin { op, left, right } => {
            lemma_post_nodes_internal(*left);
            lemma_post_nodes_internal(*right);
            lemma_count_internal_concat(post_nodes(*left), post_nodes(*right));
            lemma_count_internal_concat(post_nodes(*left) + post_nodes(*right), seq![node_of(e)]);
            assert(count_internal(seq![node_of(e)]) == 1) by {
                assert(count_internal(Seq::<Node>::empty()) == 0);
                assert(seq![node_of(e)][0] == node_of(e) && !node_of(e).is_leaf);
                assert(seq![node_of(e)].skip(1) =~= Seq::<Node>::empty());
            }
            assert(post_nodes(e) == post_nodes(*left) + post_nodes(*right) + seq![node_of(e)]);
        },
    }
}

/// Law: in a well-formed expression, the number of operator characters in the
/// prefix rendering, the number in the postfix rendering, and the number of
/// internal nodes handed to the expression graph are all the number of
/// operator applications.
pub proof fn lemma_operator_counts(e: SExpr)
    requires
        wf_expr(e),
    ensures
        count_ops(spec_prefix(e)) == internal_count(e),
        count_ops(spec_postfix(e)) == internal_count(e),
        count_internal(post_nodes(e)) == internal_count(e),
{
    lemma_prefix_ops(e);
    lemma_postfix_ops(e);
    lemma_post_nodes_internal(e);
}

/// One atom of the postfix rendering: an operand's token kind and lexeme, or
/// an operator.
#[verifier::ext_equal]
pub ghost enum PAtom {
    Operand { kind: TokenType, lexeme: Seq<char> },
    Operator { op: TokenType },
}

/// The space-separated atoms of the postfix rendering, in order.
pub open spec fn postfix_atoms(e: SExpr) -> Seq<PAtom>
    decreases e,
{
    match e {
        SExpr::Num { lexeme, .. } => seq![PAtom::Operand { kind: TokenType::Number, lexeme }],
        SExpr::Id { lexeme, .. } => seq![PAtom::Operand { kind: TokenType::Id, lexeme }],
        SExpr::Paren { inner } => postfix_atoms(*inner),
        SExpr::Bin { op, left, right } => postfix_atoms(*left) + postfix_atoms(*right)
            + seq![PAtom::Operator { op }],
    }
}

/// The rendering of one postfix atom.
pub open spec fn atom_chars(a: PAtom) -> Seq<char> {
    match a {
        PAtom::Operand { lexeme, .. } => lexeme,
        PAtom::Operator { op } => seq![op_char(op)],
    }
}

/// Atoms joined by single spaces.
pub open spec fn join_atoms(atoms: Seq<PAtom>) -> Seq<char>
    decreases atoms.len(),
{
    if atoms.len() == 0 {
        Seq::empty()
    } else if atoms.len() == 1 {
        atom_chars(atoms[0])
    } else {
        atom_chars(atoms[0]) + seq![' '] + join_atoms(atoms.skip(1))
    }
}

pub proof fn lemma_join_atoms_concat(a: Seq<PAtom>, b: Seq<PAtom>)
    requires
        a.len() > 0,
        b.len() > 0,
    ensures
        join_atoms(a + b) == join_atoms(a) + seq![' '] + join_atoms(b),
    decreases a.len(),
{
    if a.len() == 1 {
        assert((a + b)[0] == a[0]);
        assert((a + b).skip(1) =~= b);
        assert(join_atoms(a) == atom_chars(a[0]));
        assert(join_atoms(a + b) =~= join_atoms(a) + seq![' '] + join_atoms(b));
    } else {
        assert((a + b)[0] == a[0]);
        assert((a + b).skip(1) =~= a.skip(1) + b);
        lemma_join_atoms_concat(a.skip(1), b);
        assert(join_atoms(a + b) =~= join_atoms(a) + seq![' '] + join_atoms(b));
    }
}

/// An expression's atoms are never empty.
pub proof fn lemma_postfix_atoms_len(e: SExpr)
    ensures
        postfix_atoms(e).len() > 0,
    decreases e,
{
    match e {
        SExpr::Paren { inner } => lemma_postfix_atoms_len(*inner),
        SExpr::Bin { op, left, right } => {
            lemma_postfix_atoms_len(*left);
            lemma_postfix_atoms_len(*right);
        },
        _ => {},
    }
}

/// Law: the postfix rendering is exactly its atoms joined by single spaces, so
/// splitting it on spaces recovers the atoms.
pub proof fn lemma_postfix_render(e: SExpr)
    ensures
        spec_postfix(e) == join_atoms(postfix_atoms(e)),
    decreases e,
{
    match e {
        SExpr::Paren { inner } => lemma_postfix_render(*inner),
        SExpr::Bin { op, left, right } => {
            lemma_postfix_render(*left);
            lemma_postfix_render(*right);
            lemma_postfix_atoms_len(*left);
            lemma_postfix_atoms_len(*right);
            let al = postfix_atoms(*left);
            let ar = postfix_atoms(*right);
            let aop = seq![PAtom::Operator { op }];
            lemma_join_atoms_concat(ar, aop);
            lemma_join_atoms_concat(al, ar + aop);
            assert(al + ar + aop =~= al + (ar + aop));
            assert(spec_postfix(e) =~= join_atoms(postfix_atoms(e)));
        },
        _ => {},
    }
}

/// Evaluation of an expression over any value domain: `lit` reads a number
/// lexeme, `app` applies an operator, an identifier has no value, and a
/// missing operand value makes the application's value missing too.
pub open spec fn eval<V>(
    e: SExpr,
    lit: spec_fn(Seq<char>) -> Option<V>,
    app: spec_fn(TokenType, V, V) -> V,
) -> Option<V>
    decreases e,
{
    match e {
        SExpr::Num { lexeme, .. } => lit(lexeme),
        SExpr::Id { .. } => None,
        SExpr::Paren { inner } => eval(*inner, lit, app),
        SExpr::Bin { op, left, right } => {
            match (eval(*left, lit, app), eval(*right, lit, app)) {
                (Some(a), Some(b)) => Some(app(op, a, b)),
                _ => None,
            }
        },
    }
}

/// One step of a standard postfix evaluator's operator application.
pub open spec fn combine<V>(
    app: spec_fn(TokenType, V, V) -> V,
    op: TokenType,
    a: Option<V>,
    b: Option<V>,
) -> Option<V> {
    match (a, b) {
        (Some(x), Some(y)) => Some(app(op, x, y)),
        _ => None,
    }
}

/// A standard postfix evaluator: operands push their value, an operator pops
/// its two operands and pushes the result.  A stack too short for an operator
/// leaves the stack unchanged; the round-trip law shows that this never
/// happens on an expression's own atoms.
pub open spec fn run_postfix<V>(
    atoms: Seq<PAtom>,
    stack: Seq<Option<V>>,
    lit: spec_fn(Seq<char>) -> Option<V>,
    app: spec_fn(TokenType, V, V) -> V,
) -> Seq<Option<V>>
    decreases atoms.len(),
{
    if atoms.len() == 0 {
        stack
    } else {
        let rest = atoms.skip(1);
        match atoms[0] {
            PAtom::Operand { kind, lexeme } => {
                let v = if kind == TokenType::Number {
                    lit(lexeme)
                } else {
                    None
                };
                run_postfix(rest, stack.push(v), lit, app)
            },
            PAtom::Operator { op } => {
                if stack.len() >= 2 {
                    let b = stack.last();
                    let a = stack[stack.len() - 2];
                    run_postfix(
                        rest,
                        stack.drop_last().drop_last().push(combine(app, op, a, b)),
                        lit,
                        app,
                    )
                } else {
                    run_postfix(rest, stack, lit, app)
                }
            },
        }
    }
}

pub proof fn lemma_run_postfix_concat<V>(
    a: Seq<PAtom>,
    b: Seq<PAtom>,
    stack: Seq<Option<V>>,
    lit: spec_fn(Seq<char>) -> Option<V>,
    app: spec_fn(TokenType, V, V) -> V,
)
    ensures
        run_postfix(a + b, stack, lit, app) == run_postfix(b, run_postfix(a, stack, lit, app), lit, app),
    decreases a.len(),
{
    if a.len() == 0 {
        assert(a + b =~= b);
    } else {
        assert((a + b)[0] == a[0]);
        assert((a + b).skip(1) =~= a.skip(1) + b);
        match a[0] {
            PAtom::Operand { kind, lexeme } => {
                let v = if kind == TokenType::Number {
                    lit(lexeme)
                } else {
                    None
                };
                lemma_run_postfix_concat(a.skip(1), b, stack.push(v), lit, app);
            },
            PAtom::Operator { op } => {
                if stack.len() >= 2 {
                    let bb = stack.last();
                    let aa = stack[stack.len() - 2];
                    lemma_run_postfix_concat(
                        a.skip(1),
                        b,
                        stack.drop_last().drop_last().push(combine(app, op, aa, bb)),
                        lit,
                        app,
                    );
                } else {
                    lemma_run_postfix_concat(a.skip(1), b, stack, lit, app);
                }
            },
        }
    }
}

/// Law: running a standard postfix evaluator over an expression's postfix
/// atoms pushes exactly the expression's value, over any value domain and any
/// starting stack.  Re-parsing the postfix rendering therefore reproduces the
/// numeric result of the analysis.
pub proof fn lemma_postfix_round_trip<V>(
    e: SExpr,
    stack: Seq<Option<V>>,
    lit: spec_fn(Seq<char>) -> Option<V>,
    app: spec_fn(TokenType, V, V) -> V,
)
    ensures
        run_postfix(postfix_atoms(e), stack, lit, app) == stack.push(eval(e, lit, app)),
    decreases e,
{
    match e {
        SExpr::Num { lexeme, .. } => {
            let atoms = postfix_atoms(e);
            assert(atoms[0] == (PAtom::Operand { kind: TokenType::Number, lexeme }));
            assert(atoms.skip(1) =~= Seq::<PAtom>::empty());
            assert(run_postfix(atoms, stack, lit, app) == run_postfix(
                atoms.skip(1),
                stack.push(lit(lexeme)),
                lit,
                app,
            ));
        },
        SExpr::Id { lexeme, .. } => {
            let atoms = postfix_atoms(e);
            assert(atoms[0] == (PAtom::Operand { kind: TokenType::Id, lexeme }));
            assert(atoms.skip(1) =~= Seq::<PAtom>::empty());
            assert(run_postfix(atoms, stack, lit, app) == run_postfix(
                atoms.skip(1),
                stack.push(None),
                lit,
                app,
            ));
        },
        SExpr::Paren { inner } => {
            lemma_postfix_round_trip(*inner, stack, lit, app);
        },
        SExpr::Bin { op, left, right } => {
            let al = postfix_atoms(*left);
            let ar = postfix_atoms(*right);
            let aop = seq![PAtom::Operator { op }];
            assert(postfix_atoms(e) =~= (al + ar) + aop);
            lemma_run_postfix_concat(al, ar, stack, lit, app);
            lemma_run_postfix_concat(al + ar, aop, stack, lit, app);
            lemma_postfix_round_trip(*left, stack, lit, app);
            let s1 = stack.push(eval(*left, lit, app));
            lemma_postfix_round_trip(*right, s1, lit, app);
            let s2 = s1.push(eval(*right, lit, app));
            assert(s2.len() == stack.len() + 2);
            assert(s2.last() == eval(*right, lit, app));
            assert(s2[s2.len() - 2] == eval(*left, lit, app));
            assert(s2.drop_last().drop_last() =~= stack);
            assert(aop.skip(1) =~= Seq::<PAtom>::empty());
            assert(aop[0] == (PAtom::Operator { op }));
            let c = combine(app, op, eval(*left, lit, app), eval(*right, lit, app));
            assert(run_postfix(aop, s2, lit, app) == run_postfix(
                aop.skip(1),
                s2.drop_last().drop_last().push(c),
                lit,
                app,
            ));
            assert(s2.drop_last().drop_last().push(c) == stack.push(c));
            assert(run_postfix(aop, s2, lit, app) == stack.push(c));
        },
    }
}

} // verus!

//! End-to-end scenarios for the analysis pipeline: renderings, numeric
//! evaluation, deduplication, error reporting, caching, and the postfix
//! round trip.
use expr_analyzer::ast::Expr;
use expr_analyzer::cache::State;
use expr_analyzer::error::AnalyzerError;
use expr_analyzer::sintactic::Analyzed;
use expr_analyzer::cache::App;
use expr_analyzer::error::ErrorKind;
use expr_analyzer::sintactic::Analyzer;
use expr_analyzer::token::TokenType;

fn eval_expr(e: &Expr) -> Option<f32> {
    match e {
        Expr::Num { lexeme, .. } => lexeme.parse::<f32>().ok(),
        Expr::Id { .. } => None,
        Expr::Paren { inner } => eval_expr(inner),
        Expr::Bin { op, left, right } => match (eval_expr(left), eval_expr(right)) {
            (Some(a), Some(b)) => Some(apply(op, a, b)),
            _ => None,
        },
    }
}

fn apply(op: &TokenType, a: f32, b: f32) -> f32 {
    match op {
        TokenType::Plus => a + b,
        TokenType::Minus => a - b,
        TokenType::Asterisk => a * b,
        TokenType::Slash => a / b,
        _ => panic!("not an operator"),
    }
}

/// A standard postfix evaluator over the space-separated postfix rendering.
fn eval_postfix(s: &str) -> Option<f32> {
    let mut stack: Vec<Option<f32>> = Vec::new();
    for atom in s.split(' ') {
        match atom {
            "+" | "-" | "*" | "/" => {
                let b = stack.pop().expect("operand");
                let a = stack.pop().expect("operand");
                let op = match atom {
                    "+" => TokenType::Plus,
                    "-" => TokenType::Minus,
                    "*" => TokenType::Asterisk,
                    _ => TokenType::Slash,
                };
                let v = match (a, b) {
                    (Some(x), Some(y)) => Some(apply(&op, x, y)),
                    _ => None,
                };
                stack.push(v);
            }
            _ => {
                let v = atom.parse::<f32>().ok();
                stack.push(v);
            }
        }
    }
    assert_eq!(stack.len(), 1);
    stack.pop().unwrap()
}

fn analyze(input: &str) -> Analyzer {
    Analyzer::new(&String::from(input))
}

fn expect_error(r: Result<Analyzed, AnalyzerError>) -> AnalyzerError {
    match r {
        Err(e) => e,
        Ok(_) => panic!("expected an analysis error"),
    }
}

fn expect_app_error(r: Result<State, AnalyzerError>) -> AnalyzerError {
    match r {
        Err(e) => e,
        Ok(_) => panic!("expected an analysis error"),
    }
}

fn count_ops(s: &str) -> usize {
    s.chars().filter(|c| *c == '+' || *c == '-' || *c == '*' || *c == '/').count()
}

fn same_value(a: Option<f32>, b: Option<f32>) -> bool {
    match (a, b) {
        (None, None) => true,
        (Some(x), Some(y)) => (x.is_nan() && y.is_nan()) || x == y,
        _ => false,
    }
}

#[test]
fn renders_prefix_and_postfix() {
    let mut a = analyze("2+3*4");
    let az = a.analyze().expect("valid input");
    assert_eq!(az.prefix, "+ 2 * 3 4");
    assert_eq!(az.postfix, "2 3 4 * +");

    let mut a = analyze("(2+3)*4");
    let az = a.analyze().expect("valid input");
    assert_eq!(az.prefix, "* + 2 3 4");
    assert_eq!(az.postfix, "2 3 + 4 *");

    let mut a = analyze("2 +  3");
    let az = a.analyze().expect("spaces are skipped");
    assert_eq!(az.prefix, "+ 2 3");
    assert_eq!(az.postfix, "2 3 +");
}

#[test]
fn operator_counts_agree() {
    for input in ["2+3*4", "(1+2)*(1+2)", "a-b/c+d", "((8-2)*3)/2", "7"] {
        let mut a = analyze(input);
        let az = a.analyze().expect("valid input");
        let internal = a
            .graph
            .stack
            .iter()
            .filter(|h| !a.graph.get(h).expect("interned").node.is_leaf)
            .count();
        assert_eq!(count_ops(&az.prefix), count_ops(&az.postfix));
        // with no shared sub-expression, every operator makes one new node
        if input != "(1+2)*(1+2)" {
            assert_eq!(count_ops(&az.prefix), internal);
        }
    }
}

#[test]
fn numeric_evaluation() {
    let mut a = analyze("2+3*4");
    let az = a.analyze().expect("valid input");
    assert_eq!(eval_expr(&az.ast), Some(14.0));

    let mut a = analyze("(2+3)*4");
    let az = a.analyze().expect("valid input");
    assert_eq!(eval_expr(&az.ast), Some(20.0));

    let mut a = analyze("1/0");
    let az = a.analyze().expect("valid input");
    let v = eval_expr(&az.ast).expect("numeric");
    assert!(v.is_infinite() && v > 0.0);

    let mut a = analyze("a+1");
    let az = a.analyze().expect("valid input");
    assert_eq!(eval_expr(&az.ast), None);
}

#[test]
fn symbol_deduplication() {
    let mut a = analyze("2+2");
    a.analyze().expect("valid input");
    assert_eq!(a.symbols_table.stack.len(), 1);
    let leaves = a
        .graph
        .stack
        .iter()
        .filter(|h| a.graph.get(h).expect("interned").node.is_leaf)
        .count();
    assert_eq!(leaves, 1);
}

#[test]
fn shared_subexpression_collapses() {
    let mut a = analyze("(1+2)*(1+2)");
    let az = a.analyze().expect("valid input");
    assert_eq!(a.symbols_table.stack.len(), 2);
    let leaves = a
        .graph
        .stack
        .iter()
        .filter(|h| a.graph.get(h).expect("interned").node.is_leaf)
        .count();
    let internal = a.graph.stack.len() - leaves;
    assert_eq!(leaves, 2);
    assert_eq!(internal, 2);
    // the root multiplication refers to the one shared `1+2` node twice
    let root = a.graph.get(&az.node_hash).expect("root interned");
    assert!(!root.node.is_leaf);
    assert_eq!(root.node.left, root.node.right);
}

#[test]
fn empty_input_is_a_syntax_error() {
    let mut a = analyze("");
    let e = expect_error(a.analyze());
    assert_eq!(e.kind, ErrorKind::SyntaxError);
    assert_eq!(e.pos, 1);
    assert_eq!(e.expected, "open parenthesis, number, or identifier");
}

#[test]
fn leading_operator_is_a_syntax_error() {
    let mut a = analyze("*");
    let e = expect_error(a.analyze());
    assert_eq!(e.kind, ErrorKind::SyntaxError);
    assert_eq!(e.pos, 1);
    assert_eq!(e.character, "*");
    assert_eq!(e.expected, "open parenthesis, number, or identifier");
}

#[test]
fn missing_close_parenthesis() {
    let mut a = analyze("(1+2");
    let e = expect_error(a.analyze());
    assert_eq!(e.kind, ErrorKind::LexicalMismatch);
    assert_eq!(e.expected, "close parenthesis");
    assert_eq!(e.character, "\0");
    // the end-of-input sentinel sits one past the last character
    assert_eq!(e.pos, 5);
}

#[test]
fn trailing_input_is_an_error() {
    let mut a = analyze("1+2)");
    let e = expect_error(a.analyze());
    assert_eq!(e.kind, ErrorKind::LexicalMismatch);
    assert_eq!(e.expected, "end of input");
    assert_eq!(e.character, ")");
    assert_eq!(e.pos, 4);
}

#[test]
fn unknown_character_is_a_syntax_error() {
    let mut a = analyze("1+$");
    let e = expect_error(a.analyze());
    assert_eq!(e.kind, ErrorKind::SyntaxError);
    assert_eq!(e.character, "$");
    assert_eq!(e.pos, 3);
}

#[test]
fn postfix_round_trip() {
    for input in ["2+3*4", "(2+3)*4", "10/4-1", "1/0", "((8-2)*3)/2", "0/0", "a+1", "5"] {
        let mut a = analyze(input);
        let az = a.analyze().expect("valid input");
        assert!(
            same_value(eval_postfix(&az.postfix), eval_expr(&az.ast)),
            "round trip failed for {}",
            input
        );
    }
}

#[test]
fn cache_returns_identical_outcomes() {
    let mut app = App::default();
    app.input.push_str("2+2");
    let first = app.run_analyzer().expect("valid input");
    let second = app.run_analyzer().expect("cache hit");
    assert_eq!(first.postfix, second.postfix);
    assert_eq!(first.prefix, second.prefix);
    assert_eq!(first.symbols_table.stack.len(), second.symbols_table.stack.len());
    assert_eq!(first.graph.stack.len(), second.graph.stack.len());
}

#[test]
fn cache_covers_errors_too() {
    let mut app = App::default();
    let e1 = expect_app_error(app.run_analyzer());
    let e2 = expect_app_error(app.run_analyzer());
    assert_eq!(e1.kind, e2.kind);
    assert_eq!(e1.pos, e2.pos);
    assert_eq!(e1.character, e2.character);
    assert_eq!(e1.expected, e2.expected);
    assert_eq!(e1.kind, ErrorKind::SyntaxError);
    assert_eq!(e1.pos, 1);
}

#[test]
fn cache_follows_edits() {
    let mut app = App::default();
    app.input.push_str("1+1");
    let first = app.run_analyzer().expect("valid input");
    assert_eq!(first.postfix, "1 1 +");
    app.input.push('*');
    expect_app_error(app.run_analyzer());
    app.input.push('3');
    let third = app.run_analyzer().expect("valid again");
    assert_eq!(third.postfix, "1 1 3 * +");
}

#[test]
fn parse_tree_mirrors_productions() {
    let mut a = analyze("1");
    let az = a.analyze().expect("valid input");
    let tree = &az.tree;
    assert_eq!(tree.root, "expr");
    assert_eq!(tree.items.len(), 2);
    assert_eq!(tree.items[0].root, "term");
    assert_eq!(tree.items[1].root, "rest_expr");
    assert_eq!(tree.items[1].items.len(), 1);
    assert_eq!(tree.items[1].items[0].root, "eps");
    let factor = &tree.items[0].items[0];
    assert_eq!(factor.root, "factor");
    assert_eq!(factor.items[0].root, "number");
    assert_eq!(factor.items[0].items[0].root, "1");
}

#[test]
fn parenthesised_factor_keeps_paren_leaves() {
    let mut a = analyze("(5)");
    let az = a.analyze().expect("valid input");
    assert_eq!(az.prefix, "5");
    assert_eq!(az.postfix, "5");
    let factor = &az.tree.items[0].items[0];
    assert_eq!(factor.root, "factor");
    assert_eq!(factor.items.len(), 3);
    assert_eq!(factor.items[0].root, "(");
    assert_eq!(factor.items[2].root, ")");
}

#[test]
fn left_associative_folds() {
    let mut a = analyze("8-2-1");
    let az = a.analyze().expect("valid input");
    assert_eq!(az.prefix, "- - 8 2 1");
    assert_eq!(az.postfix, "8 2 - 1 -");
    assert_eq!(eval_expr(&az.ast), Some(5.0));

    let mut a = analyze("16/4/2");
    let az = a.analyze().expect("valid input");
    assert_eq!(eval_expr(&az.ast), Some(2.0));
}

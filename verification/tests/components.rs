//! Component-level tests: the lexical analyzer, the symbol table, the
//! expression graph, the token model, and the parse-tree builders.
use expr_analyzer::graph::{Graph, Node};
use expr_analyzer::lexic::LexicAnalyzer;
use expr_analyzer::symbols::SymbolsTable;
use expr_analyzer::token::{type_to_string, Token, TokenType};
use expr_analyzer::tree::TreeItem;

fn token(lexeme: &str, kind: TokenType, position: usize) -> Token {
    Token { position, lexeme: String::from(lexeme), token_type: kind }
}

fn lex_all(input: &str) -> Vec<Token> {
    let mut lexer = LexicAnalyzer::new(&String::from(input));
    let mut out = Vec::new();
    loop {
        let t = lexer.consume_token().expect("a token");
        let done = t.token_type == TokenType::EOF || t.token_type == TokenType::Unknown;
        out.push(t);
        if done {
            return out;
        }
    }
}

#[test]
fn lexer_classifies_tokens() {
    let toks = lex_all("12 + foo_3*(4)");
    let kinds: Vec<TokenType> = toks.iter().map(|t| t.token_type).collect();
    assert_eq!(
        kinds,
        vec![
            TokenType::Number,
            TokenType::Plus,
            TokenType::Id,
            TokenType::Asterisk,
            TokenType::OpenParenthesis,
            TokenType::Number,
            TokenType::ClosingParenthesis,
            TokenType::EOF,
        ]
    );
    assert_eq!(toks[0].lexeme, "12");
    assert_eq!(toks[2].lexeme, "foo_3");
    assert_eq!(toks[5].lexeme, "4");
}

#[test]
fn lexer_records_positions() {
    let toks = lex_all("12 + foo");
    assert_eq!(toks[0].position, 1);
    assert_eq!(toks[1].position, 4);
    assert_eq!(toks[2].position, 6);
    // end of input sits one past the last character
    assert_eq!(toks[3].token_type, TokenType::EOF);
    assert_eq!(toks[3].position, 9);
}

#[test]
fn lexer_accepts_leading_underscore() {
    let toks = lex_all("_ab1+x");
    assert_eq!(toks[0].token_type, TokenType::Id);
    assert_eq!(toks[0].lexeme, "_ab1");
    assert_eq!(toks[2].lexeme, "x");
}

#[test]
fn lexer_marks_unknown_characters() {
    let toks = lex_all("7%2");
    assert_eq!(toks[0].lexeme, "7");
    assert_eq!(toks[1].token_type, TokenType::Unknown);
    assert_eq!(toks[1].lexeme, "%");
    assert_eq!(toks[1].position, 2);
}

#[test]
fn check_and_next_consumes_on_match() {
    let mut lexer = LexicAnalyzer::new(&String::from("1+2"));
    lexer.consume_token();
    let t = lexer.check_and_next(&TokenType::Number).expect("a number first");
    assert_eq!(t.lexeme, "1");
    let t = lexer.check_and_next(&TokenType::Plus).expect("then a plus");
    assert_eq!(t.lexeme, "+");
}

#[test]
fn check_and_next_reports_mismatch() {
    let mut lexer = LexicAnalyzer::new(&String::from("1+2"));
    lexer.consume_token();
    let e = lexer.check_and_next(&TokenType::Plus).expect_err("a number is next");
    assert_eq!(e.character, "1");
    assert_eq!(e.pos, 1);
    assert_eq!(e.expected, "+");
    // the mismatch consumed nothing
    let t = lexer.check_and_next(&TokenType::Number).expect("still the number");
    assert_eq!(t.lexeme, "1");
}

#[test]
fn hash_depends_on_lexeme_only() {
    let a = token("42", TokenType::Number, 1);
    let b = token("42", TokenType::Id, 9);
    let c = token("43", TokenType::Number, 1);
    assert_eq!(a.get_default_hash(), b.get_default_hash());
    assert_ne!(a.get_default_hash(), c.get_default_hash());
}

#[test]
fn symbols_table_interning_is_idempotent() {
    let mut table = SymbolsTable::new();
    let h1 = table.add(&token("x", TokenType::Id, 1));
    let h2 = table.add(&token("x", TokenType::Id, 5));
    let h3 = table.add(&token("y", TokenType::Id, 3));
    assert_eq!(h1, h2);
    assert_ne!(h1, h3);
    assert_eq!(table.stack.len(), 2);
    let first = table.get(&h1).expect("interned");
    assert_eq!(first.index, 0);
    // the first occurrence is the one kept
    assert_eq!(first.token.position, 1);
    assert_eq!(table.get(&h3).expect("interned").index, 1);
}

#[test]
fn graph_interning_collapses_identical_nodes() {
    let mut graph = Graph::new();
    let leaf = Node { op: TokenType::Number, is_leaf: true, left: 77, right: 0 };
    let h1 = graph.add(leaf);
    let h2 = graph.add(leaf);
    assert_eq!(h1, h2);
    assert_eq!(graph.stack.len(), 1);
    let inner = Node { op: TokenType::Plus, is_leaf: false, left: h1, right: h1 };
    let h3 = graph.add(inner);
    assert_ne!(h1, h3);
    assert_eq!(graph.stack.len(), 2);
    assert_eq!(graph.get(&h3).expect("interned").index, 1);
    assert_eq!(graph.get(&h3).expect("interned").node, inner);
}

#[test]
fn type_labels() {
    assert_eq!(type_to_string(&TokenType::Number), "number");
    assert_eq!(type_to_string(&TokenType::Id), "identifier");
    assert_eq!(type_to_string(&TokenType::Plus), "+");
    assert_eq!(type_to_string(&TokenType::ClosingParenthesis), "close parenthesis");
    assert_eq!(type_to_string(&TokenType::EOF), "end of input");
    assert_eq!(type_to_string(&TokenType::Unknown), "unknown");
}

#[test]
fn tree_builders_shape_nodes() {
    let t = TreeItem::branch2(
        String::from("pair"),
        TreeItem::new("a"),
        TreeItem::new("b"),
    );
    assert_eq!(t.root, "pair");
    assert_eq!(t.items.len(), 2);
    assert_eq!(t.items[1].root, "b");
    let mut t = t;
    t.add_item(TreeItem::new("c"));
    assert_eq!(t.items.len(), 3);
    assert_eq!(t.items[2].root, "c");
    let copy = t.clone();
    assert_eq!(copy.items.len(), 3);
    assert_eq!(copy.items[0].root, "a");
}

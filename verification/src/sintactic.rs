//! The syntactic analyzer: recursive descent over the LL(1) grammar
//!
//! ```text
//! analyze   -> expr EndOfInput
//! expr      -> term rest_expr
//! rest_expr -> ('+'|'-') term rest_expr | epsilon
//! term      -> factor rest_term
//! rest_term -> ('*'|'/') factor rest_term | epsilon
//! factor    -> '(' expr ')' | Number | Identifier
//! ```
//!
//! The spec-level parser (`s_expr` and friends) runs over the token stream and
//! pins down exactly the value, the parse tree, the symbol table, the
//! expression graph, and the error of every analysis; each executable
//! production is proved to return precisely what the spec parser says.
use vstd::prelude::*;
use crate::ast::{count_internal, count_ops, gr_after_all, internal_count, leaf_toks, lemma_gr_after_all_concat, lemma_operator_counts, lemma_sym_after_all_concat, node_of, node_id, post_nodes, spec_prefix, spec_postfix, sym_after_all, wf_expr, Expr, SExpr};
use crate::error::{AnalyzerError, ErrorKind, SErr};
use crate::graph::{gr_after, gr_empty, Graph, Node, SGr};
use crate::lexic::{
    initial_scan, is_terminal, lemma_tokenize_kinds, lemma_tokenize_unfold, lemma_tokenize_wf,
    spec_next, spec_tokenize, tok_kind_ok, LexicAnalyzer, SScan,
};
use crate::symbols::{sym_after, sym_empty, SSym, SymbolsTable};
use crate::token::{spec_type_str, STok, Token, TokenType};
use crate::tree::{leaf, STree, TreeItem};

verus! {

/// The mathematical model of an analyzed value.
#[verifier::ext_equal]
pub ghost struct SAz {
    pub postfix: Seq<char>,
    pub prefix: Seq<char>,
    pub tree: STree,
    pub node_hash: u64,
    pub ast: SExpr,
}

/// The value threaded through the recursive descent: the postfix and prefix
/// renderings, the parse tree, the identity of the root node in the
/// expression graph, and the abstract expression itself (from which a caller
/// derives the optional numeric result).
pub struct Analyzed {
    pub postfix: String,
    pub prefix: String,
    pub tree: TreeItem,
    pub node_hash: u64,
    pub ast: Expr,
}

impl View for Analyzed {
    type V = SAz;

    open spec fn view(&self) -> SAz {
        SAz {
            postfix: self.postfix@,
            prefix: self.prefix@,
            tree: self.tree@,
            node_hash: self.node_hash,
            ast: self.ast@,
        }
    }
}

/// The renderings and the node identity agree with the abstract expression.
pub open spec fn az_ok(a: SAz) -> bool {
    &&& a.prefix == spec_prefix(a.ast)
    &&& a.postfix == spec_postfix(a.ast)
    &&& a.node_hash == node_id(a.ast)
    &&& wf_expr(a.ast)
}

pub type AnalyzerResult = Result<Analyzed, AnalyzerError>;

/// The state of the spec-level parser: the fixed token stream, the index of
/// the lookahead token, and the models of the two interning tables.
#[verifier::ext_equal]
pub ghost struct PSt {
    pub toks: Seq<STok>,
    pub i: int,
    pub sym: SSym,
    pub gr: SGr,
}

/// What one spec-level production returns: a value and the state after it, or
/// the error that ends the analysis.
#[verifier::ext_equal]
pub ghost enum PRes {
    POk { ast: SExpr, tree: STree, st: PSt },
    PErr { e: SErr },
}

pub open spec fn pres_ok(r: PRes) -> bool {
    match r {
        PRes::POk { .. } => true,
        PRes::PErr { .. } => false,
    }
}

pub open spec fn pres_ast(r: PRes) -> SExpr {
    match r {
        PRes::POk { ast, .. } => ast,
        PRes::PErr { .. } => arbitrary(),
    }
}

pub open spec fn pres_tree(r: PRes) -> STree {
    match r {
        PRes::POk { tree, .. } => tree,
        PRes::PErr { .. } => arbitrary(),
    }
}

pub open spec fn pres_st(r: PRes) -> PSt {
    match r {
        PRes::POk { st, .. } => st,
        PRes::PErr { .. } => arbitrary(),
    }
}

/// A well-formed token stream: one terminal token at the end, none before it,
/// and every token carrying the lexeme its kind promises.
pub open spec fn toks_ok(toks: Seq<STok>) -> bool {
    &&& toks.len() >= 1
    &&& is_terminal(toks.last())
    &&& (forall|i: int| 0 <= i < toks.len() - 1 ==> !is_terminal(#[trigger] toks[i]))
    &&& (forall|i: int| 0 <= i < toks.len() ==> tok_kind_ok(#[trigger] toks[i]))
}

/// The lookahead token of a parser state.
pub open spec fn cur(st: PSt) -> STok {
    st.toks[st.i]
}

/// The parser state after consuming the lookahead token.
pub open spec fn bump(st: PSt) -> PSt {
    PSt { i: st.i + 1, ..st }
}

/// How many tokens the spec-level parser still has in front of it.
pub open spec fn pmeasure(st: PSt) -> nat {
    if 0 <= st.i < st.toks.len() {
        (st.toks.len() - st.i) as nat
    } else {
        0nat
    }
}

/// The error of a production that required one token kind and saw another.
pub open spec fn mismatch_err(t: STok, expected: Seq<char>) -> SErr {
    SErr { kind: ErrorKind::LexicalMismatch, character: t.lexeme, pos: t.position, expected }
}

/// The error of a factor that saw a token that cannot start one.
pub open spec fn syntax_err(t: STok) -> SErr {
    SErr {
        kind: ErrorKind::SyntaxError,
        character: t.lexeme,
        pos: t.position,
        expected: "open parenthesis, number, or identifier"@,
    }
}

/// The spec-level `factor` production: a parenthesised expression, or a number
/// or identifier leaf, which is interned into the symbol table and as a leaf
/// node into the expression graph.
pub open spec fn s_factor(st: PSt) -> PRes
    decreases pmeasure(st), 0nat,
{
    let t = cur(st);
    if t.kind == TokenType::OpenParenthesis {
        if pmeasure(bump(st)) < pmeasure(st) {
            match s_expr(bump(st)) {
                PRes::POk { ast, tree, st: st1 } => {
                    let t1 = cur(st1);
                    if t1.kind == TokenType::ClosingParenthesis {
                        PRes::POk {
                            ast: SExpr::Paren { inner: Box::new(ast) },
                            tree: STree {
                                root: "factor"@,
                                items: seq![leaf("("@), tree, leaf(")"@)],
                            },
                            st: bump(st1),
                        }
                    } else {
                        PRes::PErr {
                            e: mismatch_err(t1, spec_type_str(TokenType::ClosingParenthesis)),
                        }
                    }
                },
                PRes::PErr { e } => PRes::PErr { e },
            }
        } else {
            arbitrary()
        }
    } else if t.kind == TokenType::Number || t.kind == TokenType::Id {
        let ast = if t.kind == TokenType::Number {
            SExpr::Num { lexeme: t.lexeme, position: t.position }
        } else {
            SExpr::Id { lexeme: t.lexeme, position: t.position }
        };
        PRes::POk {
            ast,
            tree: STree {
                root: "factor"@,
                items: seq![
                    STree { root: spec_type_str(t.kind), items: seq![leaf(t.lexeme)] },
                ],
            },
            st: PSt {
                toks: st.toks,
                i: st.i + 1,
                sym: sym_after(st.sym, t),
                gr: gr_after(st.gr, node_of(ast)),
            },
        }
    } else {
        PRes::PErr { e: syntax_err(t) }
    }
}

/// The spec-level `rest_term` production: a left-associative fold over `*` and
/// `/`, interning one internal node per operator.
pub open spec fn s_rest_term(st: PSt, acc: SExpr) -> PRes
    decreases pmeasure(st), 0nat,
{
    let t = cur(st);
    if t.kind == TokenType::Asterisk || t.kind == TokenType::Slash {
        let st0 = bump(st);
        if pmeasure(st0) < pmeasure(st) {
            match s_factor(st0) {
                PRes::POk { ast: fast, tree: ftree, st: st1 } => {
                    let bast = SExpr::Bin {
                        op: t.kind,
                        left: Box::new(acc),
                        right: Box::new(fast),
                    };
                    let st2 = PSt { gr: gr_after(st1.gr, node_of(bast)), ..st1 };
                    if pmeasure(st2) < pmeasure(st) {
                        match s_rest_term(st2, bast) {
                            PRes::POk { ast: rast, tree: rtree, st: st3 } => PRes::POk {
                                ast: rast,
                                tree: STree {
                                    root: "rest_term"@,
                                    items: seq![leaf(t.lexeme), ftree, rtree],
                                },
                                st: st3,
                            },
                            PRes::PErr { e } => PRes::PErr { e },
                        }
                    } else {
                        arbitrary()
                    }
                },
                PRes::PErr { e } => PRes::PErr { e },
            }
        } else {
            arbitrary()
        }
    } else {
        PRes::POk {
            ast: acc,
            tree: STree { root: "rest_term"@, items: seq![leaf("eps"@)] },
            st,
        }
    }
}

/// The spec-level `term` production.
pub open spec fn s_term(st: PSt) -> PRes
    decreases pmeasure(st), 1nat,
{
    match s_factor(st) {
        PRes::POk { ast, tree: ftree, st: st1 } => {
            if pmeasure(st1) < pmeasure(st) {
                match s_rest_term(st1, ast) {
                    PRes::POk { ast: rast, tree: rtree, st: st2 } => PRes::POk {
                        ast: rast,
                        tree: STree { root: "term"@, items: seq![ftree, rtree] },
                        st: st2,
                    },
                    PRes::PErr { e } => PRes::PErr { e },
                }
            } else {
                arbitrary()
            }
        },
        PRes::PErr { e } => PRes::PErr { e },
    }
}

/// The spec-level `rest_expr` production: a left-associative fold over `+` and
/// `-`, interning one internal node per operator.
pub open spec fn s_rest_expr(st: PSt, acc: SExpr) -> PRes
    decreases pmeasure(st), 0nat,
{
    let t = cur(st);
    if t.kind == TokenType::Plus || t.kind == TokenType::Minus {
        let st0 = bump(st);
        if pmeasure(st0) < pmeasure(st) {
            match s_term(st0) {
                PRes::POk { ast: tast, tree: ttree, st: st1 } => {
                    let bast = SExpr::Bin {
                        op: t.kind,
                        left: Box::new(acc),
                        right: Box::new(tast),
                    };
                    let st2 = PSt { gr: gr_after(st1.gr, node_of(bast)), ..st1 };
                    if pmeasure(st2) < pmeasure(st) {
                        match s_rest_expr(st2, bast) {
                            PRes::POk { ast: rast, tree: rtree, st: st3 } => PRes::POk {
                                ast: rast,
                                tree: STree {
                                    root: "rest_expr"@,
                                    items: seq![leaf(t.lexeme), ttree, rtree],
                                },
                                st: st3,
                            },
                            PRes::PErr { e } => PRes::PErr { e },
                        }
                    } else {
                        arbitrary()
                    }
                },
                PRes::PErr { e } => PRes::PErr { e },
            }
        } else {
            arbitrary()
        }
    } else {
        PRes::POk {
            ast: acc,
            tree: STree { root: "rest_expr"@, items: seq![leaf("eps"@)] },
            st,
        }
    }
}

/// The spec-level `expr` production.
pub open spec fn s_expr(st: PSt) -> PRes
    decreases pmeasure(st), 2nat,
{
    match s_term(st) {
        PRes::POk { ast, tree: ttree, st: st1 } => {
            if pmeasure(st1) < pmeasure(st) {
                match s_rest_expr(st1, ast) {
                    PRes::POk { ast: rast, tree: rtree, st: st2 } => PRes::POk {
                        ast: rast,
                        tree: STree { root: "expr"@, items: seq![ttree, rtree] },
                        st: st2,
                    },
                    PRes::PErr { e } => PRes::PErr { e },
                }
            } else {
                arbitrary()
            }
        },
        PRes::PErr { e } => PRes::PErr { e },
    }
}

/// The spec-level top level: parse one expression starting from empty tables,
/// then require the lookahead to be end-of-input.
pub open spec fn s_analyze(toks: Seq<STok>) -> PRes {
    let st0 = PSt { toks, i: 0, sym: sym_empty(), gr: gr_empty() };
    match s_expr(st0) {
        PRes::POk { ast, tree, st: st1 } => {
            let t = cur(st1);
            if t.kind == TokenType::EOF {
                PRes::POk { ast, tree, st: st1 }
            } else {
                PRes::PErr { e: mismatch_err(t, spec_type_str(TokenType::EOF)) }
            }
        },
        PRes::PErr { e } => PRes::PErr { e },
    }
}

/// After consuming a non-terminal token, the stored lookahead is the next
/// token of the stream and the scanner stays in step with the stream.
proof fn lemma_sync_after_consume(toks: Seq<STok>, idx: int, scan: SScan)
    requires
        toks_ok(toks),
        0 <= idx < toks.len(),
        !is_terminal(toks[idx]),
        spec_tokenize(scan) == toks.skip(idx + 1),
    ensures
        idx + 1 < toks.len(),
        spec_next(scan).0 == toks[idx + 1],
        !is_terminal(toks[idx + 1]) ==> spec_tokenize(spec_next(scan).1) == toks.skip(idx + 2),
{
    assert(idx < toks.len() - 1) by {
        if idx == toks.len() - 1 {
            assert(is_terminal(toks[idx]));
        }
    }
    lemma_tokenize_unfold(scan);
    assert(toks.skip(idx + 1)[0] == toks[idx + 1]);
    if !is_terminal(toks[idx + 1]) {
        let t = spec_next(scan).0;
        let rest = spec_tokenize(spec_next(scan).1);
        assert(spec_tokenize(scan) == seq![t] + rest);
        assert((seq![t] + rest).skip(1) =~= rest);
        assert(toks.skip(idx + 1).skip(1) =~= toks.skip(idx + 2));
    }
}

/// The syntactic analyzer: it owns one lexical analyzer, one symbol table and
/// one expression graph, plus the ghost token stream and lookahead index that
/// tie the run to the spec-level parser.
pub struct Analyzer {
    pub lexic: LexicAnalyzer,
    pub symbols_table: SymbolsTable,
    pub graph: Graph,
    pub toks: Ghost<Seq<STok>>,
    pub idx: Ghost<int>,
}

impl Analyzer {
    /// The spec-level parser state this analyzer is in.
    pub open spec fn pst(self) -> PSt {
        PSt { toks: self.toks@, i: self.idx@, sym: self.symbols_table@, gr: self.graph@ }
    }

    /// The running invariant: tables well-formed, the index in range, the
    /// stored lookahead equal to the indexed token, and the scanner in step
    /// with the rest of the stream.
    pub open spec fn wf_parse(self) -> bool {
        &&& self.lexic.wf()
        &&& self.symbols_table.wf()
        &&& self.graph.wf()
        &&& toks_ok(self.toks@)
        &&& 0 <= self.idx@ < self.toks@.len()
        &&& self.lexic@.tok == Some(self.toks@[self.idx@])
        &&& (!is_terminal(self.toks@[self.idx@]) ==> spec_tokenize(self.lexic@.scan)
            == self.toks@.skip(self.idx@ + 1))
    }

    /// The state just after construction, before the lexer is primed.
    pub open spec fn wf_start(self) -> bool {
        &&& self.lexic.wf()
        &&& self.lexic@.tok is None
        &&& self.toks@ == spec_tokenize(self.lexic@.scan)
        &&& self.idx@ == 0
        &&& self.symbols_table@ == sym_empty()
        &&& self.symbols_table.wf()
        &&& self.graph@ == gr_empty()
        &&& self.graph.wf()
    }

    pub fn new(input: &String) -> (r: Self)
        ensures
            r.wf_start(),
            r.lexic@.scan == initial_scan(input@),
            r.toks@ == spec_tokenize(initial_scan(input@)),
    {
        let lexic = LexicAnalyzer::new(input);
        let ghost toks = spec_tokenize(lexic@.scan);
        Analyzer {
            lexic,
            symbols_table: SymbolsTable::new(),
            graph: Graph::new(),
            toks: Ghost(toks),
            idx: Ghost(0int),
        }
    }

    /// Consumes the current (non-terminal) lookahead token and re-establishes
    /// the invariant one token further on.
    fn bump_token(&mut self)
        requires
            old(self).wf_parse(),
            !is_terminal(old(self).toks@[old(self).idx@]),
        ensures
            final(self).wf_parse(),
            final(self).toks == old(self).toks,
            final(self).idx@ == old(self).idx@ + 1,
            final(self).symbols_table == old(self).symbols_table,
            final(self).graph == old(self).graph,
            final(self).pst() == bump(old(self).pst()),
    {
        let ghost toks = self.toks@;
        let ghost idx = self.idx@;
        let ghost scan = self.lexic@.scan;
        proof {
            lemma_sync_after_consume(toks, idx, scan);
        }
        self.lexic.consume_token();
        self.idx = Ghost(self.idx@ + 1);
        proof {
            assert(self.lexic@.tok == Some(toks[idx + 1]));
            assert(self.pst() =~~= bump(old(self).pst()));
        }
    }

    /// The parenthesised arm of `factor`: consumes `(`, analyzes the inner
    /// expression, and requires and consumes `)`.
    #[verifier::rlimit(100)]
    #[verifier::spinoff_prover]
    fn factor_paren(&mut self) -> (r: AnalyzerResult)
        requires
            old(self).wf_parse(),
            cur(old(self).pst()).kind == TokenType::OpenParenthesis,
        ensures
            final(self).toks == old(self).toks,
            match r {
                Ok(az) => {
                    &&& final(self).wf_parse()
                    &&& pres_ok(s_factor(old(self).pst()))
                    &&& az@.ast == pres_ast(s_factor(old(self).pst()))
                    &&& az@.tree == pres_tree(s_factor(old(self).pst()))
                    &&& final(self).pst() == pres_st(s_factor(old(self).pst()))
                    &&& az_ok(az@)
                    &&& old(self).idx@ < final(self).idx@
                },
                Err(e) => s_factor(old(self).pst()) == (PRes::PErr { e: e@ }),
            },
        decreases pmeasure(self.pst()), 0nat,
    {
        let ghost ost = self.pst();
        self.bump_token();
        proof {
            assert(pmeasure(bump(ost)) < pmeasure(ost));
        }
        let analyzed = match self.expr() {
            Ok(a) => a,
            Err(e) => {
                return Err(e);
            },
        };
        let ghost st1 = pres_st(s_expr(bump(ost)));
        let ghost scan1 = self.lexic@.scan;
        proof {
            assert(self.pst() == st1);
        }
        match self.lexic.check_and_next(&TokenType::ClosingParenthesis) {
            Err(e) => {
                proof {
                    assert(cur(st1).kind != TokenType::ClosingParenthesis);
                    assert(e@ == mismatch_err(
                        cur(st1),
                        spec_type_str(TokenType::ClosingParenthesis),
                    ));
                }
                return Err(e);
            },
            Ok(_) => {},
        }
        proof {
            assert(!is_terminal(self.toks@[self.idx@]));
            lemma_sync_after_consume(self.toks@, self.idx@, scan1);
        }
        self.idx = Ghost(self.idx@ + 1);
        proof {
            assert(self.wf_parse());
        }
        let Analyzed { prefix, postfix, tree, node_hash, ast } = analyzed;
        let tree2 = TreeItem::branch3(
            String::from_str("factor"),
            TreeItem::new("("),
            tree,
            TreeItem::new(")"),
        );
        let r = Analyzed {
            prefix,
            postfix,
            tree: tree2,
            node_hash,
            ast: Expr::Paren { inner: Box::new(ast) },
        };
        proof {
            assert(r@.tree == pres_tree(s_factor(ost)));
            assert(self.pst() =~~= bump(st1));
        }
        Ok(r)
    }

    /// The leaf arm of `factor`: consumes a number or identifier token,
    /// interns it into the symbol table, and interns a leaf node for it into
    /// the expression graph.
    #[verifier::rlimit(100)]
    #[verifier::spinoff_prover]
    fn factor_leaf(&mut self, token: Token) -> (r: Analyzed)
        requires
            old(self).wf_parse(),
            old(self).lexic@.tok == Some(token@),
            token@.kind == TokenType::Number || token@.kind == TokenType::Id,
        ensures
            final(self).wf_parse(),
            final(self).toks == old(self).toks,
            pres_ok(s_factor(old(self).pst())),
            r@.ast == pres_ast(s_factor(old(self).pst())),
            r@.tree == pres_tree(s_factor(old(self).pst())),
            final(self).pst() == pres_st(s_factor(old(self).pst())),
            az_ok(r@),
            old(self).idx@ < final(self).idx@,
    {
        let ghost ost = self.pst();
        proof {
            assert(token@ == cur(ost));
        }
        self.bump_token();
        let sym_h = self.symbols_table.add(&token);
        let node = Node { op: token.token_type, is_leaf: true, left: sym_h, right: 0 };
        let node_h = self.graph.add(node);
        let ast = if token.token_type == TokenType::Number {
            Expr::Num { lexeme: token.lexeme.clone(), position: token.position }
        } else {
            Expr::Id { lexeme: token.lexeme.clone(), position: token.position }
        };
        proof {
            assert(ast@ == pres_ast(s_factor(ost)));
            assert(node == node_of(ast@));
        }
        let type_label = crate::token::type_to_string(&token.token_type);
        let inner = TreeItem::branch1(type_label, TreeItem::new(token.lexeme.as_str()));
        let ghost inner_tree = STree {
            root: spec_type_str(cur(ost).kind),
            items: seq![leaf(cur(ost).lexeme)],
        };
        proof {
            assert(inner@ == inner_tree);
        }
        let tree = TreeItem::branch1(String::from_str("factor"), inner);
        proof {
            assert(tree@ == pres_tree(s_factor(ost)));
        }
        let r = Analyzed {
            prefix: token.lexeme.clone(),
            postfix: token.lexeme.clone(),
            tree,
            node_hash: node_h,
            ast,
        };
        proof {
            assert(r@.tree == pres_tree(s_factor(ost)));
            assert(tok_kind_ok(cur(ost)));
            assert(wf_expr(r@.ast));
            assert(self.pst() =~~= pres_st(s_factor(ost)));
        }
        r
    }

    /// `factor -> '(' expr ')' | Number | Identifier`.  A number or identifier
    /// is interned into the symbol table and as a leaf node into the graph; on
    /// any other token the analysis fails with a syntax error carrying that
    /// token's lexeme and position.
    pub fn factor(&mut self) -> (r: AnalyzerResult)
        requires
            old(self).wf_parse(),
        ensures
            final(self).toks == old(self).toks,
            match r {
                Ok(az) => {
                    &&& final(self).wf_parse()
                    &&& pres_ok(s_factor(old(self).pst()))
                    &&& az@.ast == pres_ast(s_factor(old(self).pst()))
                    &&& az@.tree == pres_tree(s_factor(old(self).pst()))
                    &&& final(self).pst() == pres_st(s_factor(old(self).pst()))
                    &&& az_ok(az@)
                    &&& old(self).idx@ < final(self).idx@
                },
                Err(e) => s_factor(old(self).pst()) == (PRes::PErr { e: e@ }),
            },
        decreases pmeasure(self.pst()), 1nat,
    {
        let ghost ost = self.pst();
        let token = match &self.lexic.token {
            Some(t) => t.clone(),
            None => {
                // the lookahead is always primed before the grammar runs
                proof {
                    assert(false);
                }
                return Err(AnalyzerError::new(ErrorKind::SyntaxError, "", 0, ""));
            },
        };
        proof {
            assert(token@ == cur(ost));
        }
        if token.token_type == TokenType::OpenParenthesis {
            self.factor_paren()
        } else if token.token_type == TokenType::Number || token.token_type == TokenType::Id {
            Ok(self.factor_leaf(token))
        } else {
            let e = AnalyzerError::new(
                ErrorKind::SyntaxError,
                token.lexeme.as_str(),
                token.position,
                "open parenthesis, number, or identifier",
            );
            proof {
                assert(e@ == syntax_err(cur(ost)));
            }
            Err(e)
        }
    }

    /// `term -> factor rest_term`.
    pub fn term(&mut self) -> (r: AnalyzerResult)
        requires
            old(self).wf_parse(),
        ensures
            final(self).toks == old(self).toks,
            match r {
                Ok(az) => {
                    &&& final(self).wf_parse()
                    &&& pres_ok(s_term(old(self).pst()))
                    &&& az@.ast == pres_ast(s_term(old(self).pst()))
                    &&& az@.tree == pres_tree(s_term(old(self).pst()))
                    &&& final(self).pst() == pres_st(s_term(old(self).pst()))
                    &&& az_ok(az@)
                    &&& old(self).idx@ < final(self).idx@
                },
                Err(e) => s_term(old(self).pst()) == (PRes::PErr { e: e@ }),
            },
        decreases pmeasure(self.pst()), 2nat,
    {
        let ghost ost = self.pst();
        let factor = match self.factor() {
            Ok(a) => a,
            Err(e) => {
                return Err(e);
            },
        };
        let res = match self.rest_term(&factor) {
            Ok(a) => a,
            Err(e) => {
                return Err(e);
            },
        };
        let Analyzed { prefix, postfix, tree: rtree, node_hash, ast } = res;
        let tree = TreeItem::branch2(String::from_str("term"), factor.tree, rtree);
        let r = Analyzed { prefix, postfix, tree, node_hash, ast };
        proof {
            assert(r@.tree == pres_tree(s_term(ost)));
        }
        Ok(r)
    }

    /// `rest_term -> ('*'|'/') factor rest_term | epsilon`: a left-associative
    /// fold that interns one internal graph node per operator and threads the
    /// accumulated value into its own recursion.
    pub fn rest_term(&mut self, analyzed: &Analyzed) -> (r: AnalyzerResult)
        requires
            old(self).wf_parse(),
            az_ok(analyzed@),
        ensures
            final(self).toks == old(self).toks,
            match r {
                Ok(az) => {
                    &&& final(self).wf_parse()
                    &&& pres_ok(s_rest_term(old(self).pst(), analyzed@.ast))
                    &&& az@.ast == pres_ast(s_rest_term(old(self).pst(), analyzed@.ast))
                    &&& az@.tree == pres_tree(s_rest_term(old(self).pst(), analyzed@.ast))
                    &&& final(self).pst() == pres_st(s_rest_term(old(self).pst(), analyzed@.ast))
                    &&& az_ok(az@)
                    &&& old(self).idx@ <= final(self).idx@
                },
                Err(e) => s_rest_term(old(self).pst(), analyzed@.ast) == (PRes::PErr { e: e@ }),
            },
        decreases pmeasure(self.pst()), 0nat,
    {
        let ghost ost = self.pst();
        let token = match &self.lexic.token {
            Some(t) => t.clone(),
            None => {
                // the lookahead is always primed before the grammar runs
                proof {
                    assert(false);
                }
                return Err(AnalyzerError::new(ErrorKind::SyntaxError, "", 0, ""));
            },
        };
        proof {
            assert(token@ == cur(ost));
        }
        if token.token_type == TokenType::Asterisk || token.token_type == TokenType::Slash {
            self.bump_token();
            proof {
                assert(pmeasure(bump(ost)) < pmeasure(ost));
            }
            let factor = match self.factor() {
                Ok(a) => a,
                Err(e) => {
                    return Err(e);
                },
            };
            let Analyzed { prefix: fpre, postfix: fpost, tree: ftree, node_hash: fh, ast: fast } =
                factor;
            let node = Node {
                op: token.token_type,
                is_leaf: false,
                left: analyzed.node_hash,
                right: fh,
            };
            let bast = Expr::Bin {
                op: token.token_type,
                left: Box::new(analyzed.ast.clone()),
                right: Box::new(fast),
            };
            proof {
                assert(node == node_of(bast@));
            }
            let node_h = self.graph.add(node);
            let mut prefix = token.lexeme.clone();
            prefix.push(' ');
            prefix.append(analyzed.prefix.as_str());
            prefix.push(' ');
            prefix.append(fpre.as_str());
            let mut postfix = analyzed.postfix.clone();
            postfix.push(' ');
            postfix.append(fpost.as_str());
            postfix.push(' ');
            postfix.append(token.lexeme.as_str());
            let partial_tree = TreeItem::branch2(
                String::from_str("rest_term"),
                TreeItem::new(token.lexeme.as_str()),
                ftree,
            );
            let partial = Analyzed {
                prefix,
                postfix,
                node_hash: node_h,
                tree: partial_tree,
                ast: bast,
            };
            let ghost st2 = pres_st(s_factor(bump(ost)));
            let ghost st2g = PSt { gr: gr_after(st2.gr, node_of(partial@.ast)), ..st2 };
            proof {
                assert(tok_kind_ok(cur(ost)));
                assert(partial@.prefix =~= spec_prefix(partial@.ast));
                assert(partial@.postfix =~= spec_postfix(partial@.ast));
                assert(az_ok(partial@));
                assert(self.pst() =~~= st2g);
                assert(pmeasure(st2g) < pmeasure(ost));
            }
            let res = match self.rest_term(&partial) {
                Ok(a) => a,
                Err(e) => {
                    return Err(e);
                },
            };
            let Analyzed { prefix: rpre, postfix: rpost, tree: rtree, node_hash: rh, ast: rast } =
                res;
            let Analyzed { tree: mut ptree, .. } = partial;
            ptree.add_item(rtree);
            let r = Analyzed { prefix: rpre, postfix: rpost, tree: ptree, node_hash: rh, ast: rast };
            proof {
                assert(r@.tree.items =~= pres_tree(s_rest_term(ost, analyzed@.ast)).items);
                assert(r@.tree == pres_tree(s_rest_term(ost, analyzed@.ast)));
            }
            Ok(r)
        } else {
            let res = Analyzed {
                prefix: analyzed.prefix.clone(),
                postfix: analyzed.postfix.clone(),
                node_hash: analyzed.node_hash,
                ast: analyzed.ast.clone(),
                tree: TreeItem::branch1(String::from_str("rest_term"), TreeItem::new("eps")),
            };
            proof {
                assert(res@.tree == pres_tree(s_rest_term(ost, analyzed@.ast)));
                assert(self.pst() =~~= pres_st(s_rest_term(ost, analyzed@.ast)));
            }
            Ok(res)
        }
    }

    /// `expr -> term rest_expr`.
    pub fn expr(&mut self) -> (r: AnalyzerResult)
        requires
            old(self).wf_parse(),
        ensures
            final(self).toks == old(self).toks,
            match r {
                Ok(az) => {
                    &&& final(self).wf_parse()
                    &&& pres_ok(s_expr(old(self).pst()))
                    &&& az@.ast == pres_ast(s_expr(old(self).pst()))
                    &&& az@.tree == pres_tree(s_expr(old(self).pst()))
                    &&& final(self).pst() == pres_st(s_expr(old(self).pst()))
                    &&& az_ok(az@)
                    &&& old(self).idx@ < final(self).idx@
                },
                Err(e) => s_expr(old(self).pst()) == (PRes::PErr { e: e@ }),
            },
        decreases pmeasure(self.pst()), 3nat,
    {
        let ghost ost = self.pst();
        let term = match self.term() {
            Ok(a) => a,
            Err(e) => {
                return Err(e);
            },
        };
        let res = match self.rest_expr(&term) {
            Ok(a) => a,
            Err(e) => {
                return Err(e);
            },
        };
        let Analyzed { prefix, postfix, tree: rtree, node_hash, ast } = res;
        let tree = TreeItem::branch2(String::from_str("expr"), term.tree, rtree);
        let r = Analyzed { prefix, postfix, tree, node_hash, ast };
        proof {
            assert(r@.tree == pres_tree(s_expr(ost)));
        }
        Ok(r)
    }

    /// `rest_expr -> ('+'|'-') term rest_expr | epsilon`: the additive
    /// counterpart of `rest_term`.
    pub fn rest_expr(&mut self, analyzed: &Analyzed) -> (r: AnalyzerResult)
        requires
            old(self).wf_parse(),
            az_ok(analyzed@),
        ensures
            final(self).toks == old(self).toks,
            match r {
                Ok(az) => {
                    &&& final(self).wf_parse()
                    &&& pres_ok(s_rest_expr(old(self).pst(), analyzed@.ast))
                    &&& az@.ast == pres_ast(s_rest_expr(old(self).pst(), analyzed@.ast))
                    &&& az@.tree == pres_tree(s_rest_expr(old(self).pst(), analyzed@.ast))
                    &&& final(self).pst() == pres_st(s_rest_expr(old(self).pst(), analyzed@.ast))
                    &&& az_ok(az@)
                    &&& old(self).idx@ <= final(self).idx@
                },
                Err(e) => s_rest_expr(old(self).pst(), analyzed@.ast) == (PRes::PErr { e: e@ }),
            },
        decreases pmeasure(self.pst()), 0nat,
    {
        let ghost ost = self.pst();
        let token = match &self.lexic.token {
            Some(t) => t.clone(),
            None => {
                // the lookahead is always primed before the grammar runs
                proof {
                    assert(false);
                }
                return Err(AnalyzerError::new(ErrorKind::SyntaxError, "", 0, ""));
            },
        };
        proof {
            assert(token@ == cur(ost));
        }
        if token.token_type == TokenType::Plus || token.token_type == TokenType::Minus {
            self.bump_token();
            proof {
                assert(pmeasure(bump(ost)) < pmeasure(ost));
            }
            let term = match self.term() {
                Ok(a) => a,
                Err(e) => {
                    return Err(e);
                },
            };
            let Analyzed { prefix: tpre, postfix: tpost, tree: ttree, node_hash: th, ast: tast } =
                term;
            let node = Node {
                op: token.token_type,
                is_leaf: false,
                left: analyzed.node_hash,
                right: th,
            };
            let bast = Expr::Bin {
                op: token.token_type,
                left: Box::new(analyzed.ast.clone()),
                right: Box::new(tast),
            };
            proof {
                assert(node == node_of(bast@));
            }
            let node_h = self.graph.add(node);
            let mut prefix = token.lexeme.clone();
            prefix.push(' ');
            prefix.append(analyzed.prefix.as_str());
            prefix.push(' ');
            prefix.append(tpre.as_str());
            let mut postfix = analyzed.postfix.clone();
            postfix.push(' ');
            postfix.append(tpost.as_str());
            postfix.push(' ');
            postfix.append(token.lexeme.as_str());
            let partial_tree = TreeItem::branch2(
                String::from_str("rest_expr"),
                TreeItem::new(token.lexeme.as_str()),
                ttree,
            );
            let partial = Analyzed {
                prefix,
                postfix,
                node_hash: node_h,
                tree: partial_tree,
                ast: bast,
            };
            let ghost st2 = pres_st(s_term(bump(ost)));
            let ghost st2g = PSt { gr: gr_after(st2.gr, node_of(partial@.ast)), ..st2 };
            proof {
                assert(tok_kind_ok(cur(ost)));
                assert(partial@.prefix =~= spec_prefix(partial@.ast));
                assert(partial@.postfix =~= spec_postfix(partial@.ast));
                assert(az_ok(partial@));
                assert(self.pst() =~~= st2g);
                assert(pmeasure(st2g) < pmeasure(ost));
            }
            let res = match self.rest_expr(&partial) {
                Ok(a) => a,
                Err(e) => {
                    return Err(e);
                },
            };
            let Analyzed { prefix: rpre, postfix: rpost, tree: rtree, node_hash: rh, ast: rast } =
                res;
            let Analyzed { tree: mut ptree, .. } = partial;
            ptree.add_item(rtree);
            let r = Analyzed { prefix: rpre, postfix: rpost, tree: ptree, node_hash: rh, ast: rast };
            proof {
                assert(r@.tree.items =~= pres_tree(s_rest_expr(ost, analyzed@.ast)).items);
                assert(r@.tree == pres_tree(s_rest_expr(ost, analyzed@.ast)));
            }
            Ok(r)
        } else {
            let res = Analyzed {
                prefix: analyzed.prefix.clone(),
                postfix: analyzed.postfix.clone(),
                node_hash: analyzed.node_hash,
                ast: analyzed.ast.clone(),
                tree: TreeItem::branch1(String::from_str("rest_expr"), TreeItem::new("eps")),
            };
            proof {
                assert(res@.tree == pres_tree(s_rest_expr(ost, analyzed@.ast)));
                assert(self.pst() =~~= pres_st(s_rest_expr(ost, analyzed@.ast)));
            }
            Ok(res)
        }
    }

    /// Top level: primes the lexer with its first token, runs `expr`, then
    /// requires the lookahead to be end-of-input — trailing unconsumed input
    /// is an error carrying the trailing token's lexeme and position.
    pub fn analyze(&mut self) -> (r: AnalyzerResult)
        requires
            old(self).wf_start(),
        ensures
            final(self).toks == old(self).toks,
            match r {
                Ok(az) => {
                    &&& pres_ok(s_analyze(old(self).toks@))
                    &&& az@.ast == pres_ast(s_analyze(old(self).toks@))
                    &&& az@.tree == pres_tree(s_analyze(old(self).toks@))
                    &&& az_ok(az@)
                    &&& final(self).symbols_table@ == pres_st(s_analyze(old(self).toks@)).sym
                    &&& final(self).graph@ == pres_st(s_analyze(old(self).toks@)).gr
                    &&& final(self).symbols_table.wf()
                    &&& final(self).graph.wf()
                },
                Err(e) => s_analyze(old(self).toks@) == (PRes::PErr { e: e@ }),
            },
    {
        let ghost toks = self.toks@;
        let ghost scan = self.lexic@.scan;
        proof {
            lemma_tokenize_wf(scan);
            lemma_tokenize_kinds(scan);
            lemma_tokenize_unfold(scan);
            if !is_terminal(toks[0]) {
                let t = spec_next(scan).0;
                let rest = spec_tokenize(spec_next(scan).1);
                assert(toks == seq![t] + rest);
                assert((seq![t] + rest).skip(1) =~= rest);
                assert(toks.skip(0int + 1) =~= toks.skip(1int));
            }
        }
        self.lexic.consume_token();
        proof {
            assert(self.lexic@.tok == Some(toks[0]));
            assert(self.wf_parse());
            assert(self.pst() =~~= (PSt { toks, i: 0, sym: sym_empty(), gr: gr_empty() }));
        }
        let res = match self.expr() {
            Ok(a) => a,
            Err(e) => {
                return Err(e);
            },
        };
        match self.lexic.check_and_next(&TokenType::EOF) {
            Err(e) => {
                proof {
                    let st1 = pres_st(s_expr(PSt { toks, i: 0, sym: sym_empty(), gr: gr_empty() }));
                    assert(cur(st1).kind != TokenType::EOF);
                    assert(e@ == mismatch_err(cur(st1), spec_type_str(TokenType::EOF)));
                }
                return Err(e);
            },
            Ok(_) => {},
        }
        Ok(res)
    }
}

/// Interning a single node is one fold step.
proof fn lemma_gr_after_all_one(g: SGr, n: Node)
    ensures
        gr_after_all(g, seq![n]) == gr_after(g, n),
{
    assert(seq![n][0] == n);
    assert(seq![n].skip(1) =~= Seq::<Node>::empty());
    assert(gr_after_all(gr_after(g, n), Seq::<Node>::empty()) == gr_after(g, n));
}

proof fn lemma_sym_after_all_one(s: SSym, t: STok)
    ensures
        sym_after_all(s, seq![t]) == sym_after(s, t),
{
    assert(seq![t][0] == t);
    assert(seq![t].skip(1) =~= Seq::<STok>::empty());
    assert(sym_after_all(sym_after(s, t), Seq::<STok>::empty()) == sym_after(s, t));
}

/// Splitting off a known prefix of a sequence: what remains after the prefix
/// is the middle part followed by what remains after both.
proof fn lemma_skip_decompose<T>(pre: Seq<T>, mid: Seq<T>, r: Seq<T>)
    requires
        (pre + mid).is_prefix_of(r),
    ensures
        pre.is_prefix_of(r),
        r.skip(pre.len() as int) == mid + r.skip(pre.len() + mid.len() as int),
{
    let n = pre.len() as int;
    let k = mid.len() as int;
    assert(r.subrange(0, n + k) =~= pre + mid);
    assert(r.subrange(0, n) =~= pre);
    assert forall|i: int| 0 <= i < r.skip(n).len() implies r.skip(n)[i] == (mid + r.skip(n + k))[i] by {
        if i < k {
            assert(r.subrange(0, n + k)[n + i] == (pre + mid)[n + i]);
        }
    }
    assert(r.skip(n) =~= mid + r.skip(n + k));
}

/// The record of intern calls grows by exactly the interned nodes.
proof fn lemma_gr_after_all_adds(g: SGr, ns: Seq<Node>)
    ensures
        gr_after_all(g, ns).adds == g.adds + ns,
    decreases ns.len(),
{
    if ns.len() == 0 {
        assert(g.adds + ns =~= g.adds);
    } else {
        lemma_gr_after_all_adds(gr_after(g, ns[0]), ns.skip(1));
        assert(gr_after(g, ns[0]).adds == g.adds.push(ns[0]));
        assert(g.adds.push(ns[0]) + ns.skip(1) =~= g.adds + ns);
    }
}

/// A successful spec-level `factor` moves strictly forward and interns exactly
/// the leaves of its expression, and its nodes in postorder.
proof fn lemma_s_factor_tables(st: PSt)
    requires
        toks_ok(st.toks),
        0 <= st.i < st.toks.len(),
        pres_ok(s_factor(st)),
    ensures
        ({
            let ast = pres_ast(s_factor(st));
            let st2 = pres_st(s_factor(st));
            &&& st2.toks == st.toks
            &&& st.i < st2.i < st.toks.len()
            &&& wf_expr(ast)
            &&& st2.sym == sym_after_all(st.sym, leaf_toks(ast))
            &&& st2.gr == gr_after_all(st.gr, post_nodes(ast))
        }),
    decreases pmeasure(st), 0nat,
{
    let t = cur(st);
    if t.kind == TokenType::OpenParenthesis {
        assert(st.i < st.toks.len() - 1) by {
            if st.i == st.toks.len() - 1 {
                assert(is_terminal(st.toks[st.i]));
            }
        }
        let st0 = bump(st);
        assert(pmeasure(st0) < pmeasure(st));
        match s_expr(st0) {
            PRes::POk { ast, tree, st: st1 } => {
                lemma_s_expr_tables(st0);
                let t1 = cur(st1);
                assert(t1.kind == TokenType::ClosingParenthesis);
                assert(st1.i < st.toks.len() - 1) by {
                    if st1.i == st.toks.len() - 1 {
                        assert(is_terminal(st.toks[st1.i]));
                    }
                }
            },
            PRes::PErr { e } => {
                assert(false);
            },
        }
    } else if t.kind == TokenType::Number || t.kind == TokenType::Id {
        assert(st.i < st.toks.len() - 1) by {
            if st.i == st.toks.len() - 1 {
                assert(is_terminal(st.toks[st.i]));
            }
        }
        let ast = pres_ast(s_factor(st));
        assert(tok_kind_ok(st.toks[st.i]));
        assert(wf_expr(ast));
        assert(leaf_toks(ast) =~= seq![t]);
        assert(post_nodes(ast) =~= seq![node_of(ast)]);
        lemma_sym_after_all_one(st.sym, t);
        lemma_gr_after_all_one(st.gr, node_of(ast));
    } else {
        assert(false);
    }
}

/// A successful spec-level `rest_term` extends the accumulated expression and
/// interns exactly the new leaves and the new postorder nodes.
proof fn lemma_s_rest_term_tables(st: PSt, acc: SExpr)
    requires
        toks_ok(st.toks),
        0 <= st.i < st.toks.len(),
        wf_expr(acc),
        pres_ok(s_rest_term(st, acc)),
    ensures
        ({
            let rast = pres_ast(s_rest_term(st, acc));
            let st2 = pres_st(s_rest_term(st, acc));
            &&& st2.toks == st.toks
            &&& st.i <= st2.i < st.toks.len()
            &&& wf_expr(rast)
            &&& leaf_toks(acc).is_prefix_of(leaf_toks(rast))
            &&& post_nodes(acc).is_prefix_of(post_nodes(rast))
            &&& st2.sym == sym_after_all(
                st.sym,
                leaf_toks(rast).skip(leaf_toks(acc).len() as int),
            )
            &&& st2.gr == gr_after_all(
                st.gr,
                post_nodes(rast).skip(post_nodes(acc).len() as int),
            )
        }),
    decreases pmeasure(st), 1nat,
{
    let t = cur(st);
    if t.kind == TokenType::Asterisk || t.kind == TokenType::Slash {
        rest_fold_step(st, acc, true);
    } else {
        let rast = pres_ast(s_rest_term(st, acc));
        assert(rast == acc);
        assert(leaf_toks(rast).skip(leaf_toks(acc).len() as int) =~= Seq::<STok>::empty());
        assert(post_nodes(rast).skip(post_nodes(acc).len() as int) =~= Seq::<Node>::empty());
        assert(leaf_toks(acc).is_prefix_of(leaf_toks(rast))) by {
            assert(leaf_toks(rast).take(leaf_toks(acc).len() as int) =~= leaf_toks(acc));
        }
        assert(post_nodes(acc).is_prefix_of(post_nodes(rast))) by {
            assert(post_nodes(rast).take(post_nodes(acc).len() as int) =~= post_nodes(acc));
        }
    }
}

/// The shared operator step of `rest_term` and `rest_expr`: the operand
/// production interns its own expression, the new internal node is interned,
/// and the recursion interns whatever the extended chain adds.
#[verifier::rlimit(100)]
proof fn rest_fold_step(st: PSt, acc: SExpr, multiplicative: bool)
    requires
        toks_ok(st.toks),
        0 <= st.i < st.toks.len(),
        wf_expr(acc),
        multiplicative ==> (cur(st).kind == TokenType::Asterisk || cur(st).kind
            == TokenType::Slash) && pres_ok(s_rest_term(st, acc)),
        !multiplicative ==> (cur(st).kind == TokenType::Plus || cur(st).kind == TokenType::Minus)
            && pres_ok(s_rest_expr(st, acc)),
    ensures
        ({
            let r = if multiplicative {
                s_rest_term(st, acc)
            } else {
                s_rest_expr(st, acc)
            };
            let rast = pres_ast(r);
            let st2 = pres_st(r);
            &&& st2.toks == st.toks
            &&& st.i <= st2.i < st.toks.len()
            &&& wf_expr(rast)
            &&& leaf_toks(acc).is_prefix_of(leaf_toks(rast))
            &&& post_nodes(acc).is_prefix_of(post_nodes(rast))
            &&& st2.sym == sym_after_all(
                st.sym,
                leaf_toks(rast).skip(leaf_toks(acc).len() as int),
            )
            &&& st2.gr == gr_after_all(
                st.gr,
                post_nodes(rast).skip(post_nodes(acc).len() as int),
            )
        }),
    decreases pmeasure(st), 0nat,
{
    let t = cur(st);
    assert(!is_terminal(t));
    assert(st.i < st.toks.len() - 1) by {
        if st.i == st.toks.len() - 1 {
            assert(is_terminal(st.toks[st.i]));
        }
    }
    let st0 = bump(st);
    assert(pmeasure(st0) < pmeasure(st));
    let opnd = if multiplicative {
        s_factor(st0)
    } else {
        s_term(st0)
    };
    match opnd {
        PRes::POk { ast: fast, tree: ftree, st: st1 } => {
            if multiplicative {
                lemma_s_factor_tables(st0);
            } else {
                lemma_s_term_tables(st0);
            }
            let bast = SExpr::Bin { op: t.kind, left: Box::new(acc), right: Box::new(fast) };
            let st2 = PSt { gr: gr_after(st1.gr, node_of(bast)), ..st1 };
            assert(pmeasure(st2) < pmeasure(st));
            let rec = if multiplicative {
                s_rest_term(st2, bast)
            } else {
                s_rest_expr(st2, bast)
            };
            match rec {
                PRes::POk { ast: rast, tree: rtree, st: st3 } => {
                    if multiplicative {
                        lemma_s_rest_term_tables(st2, bast);
                    } else {
                        lemma_s_rest_expr_tables(st2, bast);
                    }
                    let la = leaf_toks(acc);
                    let lf = leaf_toks(fast);
                    let lb = leaf_toks(bast);
                    let lr = leaf_toks(rast);
                    // the leaves the whole step interns: the operand's, then
                    // whatever the recursion added past the extended chain
                    assert(la + lf =~= lb);
                    lemma_skip_decompose(la, lf, lr);
                    assert(lr.skip(la.len() as int) == lf + lr.skip(lb.len() as int));
                    lemma_sym_after_all_concat(st.sym, lf, lr.skip(lb.len() as int));
                    assert(sym_after_all(st.sym, lf) == st1.sym);
                    assert(st3.sym == sym_after_all(st.sym, lr.skip(la.len() as int)));
                    let na = post_nodes(acc);
                    let nf = post_nodes(fast);
                    let nb = post_nodes(bast);
                    let nr = post_nodes(rast);
                    let nm = nf + seq![node_of(bast)];
                    assert(na + nm =~= nb);
                    lemma_skip_decompose(na, nm, nr);
                    assert(nr.skip(na.len() as int) == nm + nr.skip(nb.len() as int));
                    lemma_gr_after_all_concat(st.gr, nf, seq![node_of(bast)]);
                    lemma_gr_after_all_concat(st.gr, nm, nr.skip(nb.len() as int));
                    lemma_gr_after_all_one(gr_after_all(st.gr, nf), node_of(bast));
                    assert(gr_after_all(st.gr, nf) == st1.gr);
                    assert(gr_after_all(st.gr, nm) == st2.gr);
                    assert(st3.gr == gr_after_all(st.gr, nr.skip(na.len() as int)));
                },
                PRes::PErr { e } => {
                    assert(false);
                },
            }
        },
        PRes::PErr { e } => {
            assert(false);
        },
    }
}

/// A successful spec-level `term` interns exactly the leaves and postorder
/// nodes of its expression.
proof fn lemma_s_term_tables(st: PSt)
    requires
        toks_ok(st.toks),
        0 <= st.i < st.toks.len(),
        pres_ok(s_term(st)),
    ensures
        ({
            let ast = pres_ast(s_term(st));
            let st2 = pres_st(s_term(st));
            &&& st2.toks == st.toks
            &&& st.i < st2.i < st.toks.len()
            &&& wf_expr(pres_ast(s_term(st)))
            &&& st2.sym == sym_after_all(st.sym, leaf_toks(ast))
            &&& st2.gr == gr_after_all(st.gr, post_nodes(ast))
        }),
    decreases pmeasure(st), 2nat,
{
    match s_factor(st) {
        PRes::POk { ast, tree: ftree, st: st1 } => {
            lemma_s_factor_tables(st);
            assert(pmeasure(st1) < pmeasure(st));
            match s_rest_term(st1, ast) {
                PRes::POk { ast: rast, tree: rtree, st: st2 } => {
                    lemma_s_rest_term_tables(st1, ast);
                    let la = leaf_toks(ast);
                    let lr = leaf_toks(rast);
                    assert(lr =~= la + lr.skip(la.len() as int)) by {
                        assert(lr.take(la.len() as int) =~= la);
                    }
                    lemma_sym_after_all_concat(st.sym, la, lr.skip(la.len() as int));
                    let na = post_nodes(ast);
                    let nr = post_nodes(rast);
                    assert(nr =~= na + nr.skip(na.len() as int)) by {
                        assert(nr.take(na.len() as int) =~= na);
                    }
                    lemma_gr_after_all_concat(st.gr, na, nr.skip(na.len() as int));
                },
                PRes::PErr { e } => {
                    assert(false);
                },
            }
        },
        PRes::PErr { e } => {
            assert(false);
        },
    }
}

/// The additive counterpart of `lemma_s_rest_term_tables`.
proof fn lemma_s_rest_expr_tables(st: PSt, acc: SExpr)
    requires
        toks_ok(st.toks),
        0 <= st.i < st.toks.len(),
        wf_expr(acc),
        pres_ok(s_rest_expr(st, acc)),
    ensures
        ({
            let rast = pres_ast(s_rest_expr(st, acc));
            let st2 = pres_st(s_rest_expr(st, acc));
            &&& st2.toks == st.toks
            &&& st.i <= st2.i < st.toks.len()
            &&& wf_expr(rast)
            &&& leaf_toks(acc).is_prefix_of(leaf_toks(rast))
            &&& post_nodes(acc).is_prefix_of(post_nodes(rast))
            &&& st2.sym == sym_after_all(
                st.sym,
                leaf_toks(rast).skip(leaf_toks(acc).len() as int),
            )
            &&& st2.gr == gr_after_all(
                st.gr,
                post_nodes(rast).skip(post_nodes(acc).len() as int),
            )
        }),
    decreases pmeasure(st), 1nat,
{
    let t = cur(st);
    if t.kind == TokenType::Plus || t.kind == TokenType::Minus {
        rest_fold_step(st, acc, false);
    } else {
        let rast = pres_ast(s_rest_expr(st, acc));
        assert(rast == acc);
        assert(leaf_toks(rast).skip(leaf_toks(acc).len() as int) =~= Seq::<STok>::empty());
        assert(post_nodes(rast).skip(post_nodes(acc).len() as int) =~= Seq::<Node>::empty());
        assert(leaf_toks(acc).is_prefix_of(leaf_toks(rast))) by {
            assert(leaf_toks(rast).take(leaf_toks(acc).len() as int) =~= leaf_toks(acc));
        }
        assert(post_nodes(acc).is_prefix_of(post_nodes(rast))) by {
            assert(post_nodes(rast).take(post_nodes(acc).len() as int) =~= post_nodes(acc));
        }
    }
}

/// A successful spec-level `expr` interns exactly the leaves and postorder
/// nodes of its expression.
proof fn lemma_s_expr_tables(st: PSt)
    requires
        toks_ok(st.toks),
        0 <= st.i < st.toks.len(),
        pres_ok(s_expr(st)),
    ensures
        ({
            let ast = pres_ast(s_expr(st));
            let st2 = pres_st(s_expr(st));
            &&& st2.toks == st.toks
            &&& st.i < st2.i < st.toks.len()
            &&& wf_expr(pres_ast(s_expr(st)))
            &&& st2.sym == sym_after_all(st.sym, leaf_toks(ast))
            &&& st2.gr == gr_after_all(st.gr, post_nodes(ast))
        }),
    decreases pmeasure(st), 3nat,
{
    match s_term(st) {
        PRes::POk { ast, tree: ttree, st: st1 } => {
            lemma_s_term_tables(st);
            assert(pmeasure(st1) < pmeasure(st));
            match s_rest_expr(st1, ast) {
                PRes::POk { ast: rast, tree: rtree, st: st2 } => {
                    lemma_s_rest_expr_tables(st1, ast);
                    let la = leaf_toks(ast);
                    let lr = leaf_toks(rast);
                    assert(lr =~= la + lr.skip(la.len() as int)) by {
                        assert(lr.take(la.len() as int) =~= la);
                    }
                    lemma_sym_after_all_concat(st.sym, la, lr.skip(la.len() as int));
                    let na = post_nodes(ast);
                    let nr = post_nodes(rast);
                    assert(nr =~= na + nr.skip(na.len() as int)) by {
                        assert(nr.take(na.len() as int) =~= na);
                    }
                    lemma_gr_after_all_concat(st.gr, na, nr.skip(na.len() as int));
                },
                PRes::PErr { e } => {
                    assert(false);
                },
            }
        },
        PRes::PErr { e } => {
            assert(false);
        },
    }
}

/// Law: a successful analysis interns into the symbol table exactly the
/// expression's leaf tokens, left to right, and hands the expression graph
/// exactly the expression's nodes in postorder; hence the number of operator
/// characters in the prefix rendering, the number in the postfix rendering,
/// and the number of internal nodes handed to the graph are all the number of
/// operator applications.
pub proof fn lemma_analysis_tables(toks: Seq<STok>)
    requires
        toks_ok(toks),
        pres_ok(s_analyze(toks)),
    ensures
        ({
            let ast = pres_ast(s_analyze(toks));
            let st = pres_st(s_analyze(toks));
            &&& wf_expr(ast)
            &&& st.sym == sym_after_all(sym_empty(), leaf_toks(ast))
            &&& st.gr == gr_after_all(gr_empty(), post_nodes(ast))
            &&& st.gr.adds == post_nodes(ast)
            &&& count_ops(spec_prefix(ast)) == internal_count(ast)
            &&& count_ops(spec_postfix(ast)) == internal_count(ast)
            &&& count_internal(st.gr.adds) == internal_count(ast)
        }),
{
    let st0 = PSt { toks, i: 0, sym: sym_empty(), gr: gr_empty() };
    match s_expr(st0) {
        PRes::POk { ast, tree, st: st1 } => {
            lemma_s_expr_tables(st0);
            lemma_gr_after_all_adds(gr_empty(), post_nodes(ast));
            assert(gr_empty().adds + post_nodes(ast) =~= post_nodes(ast));
            lemma_operator_counts(ast);
        },
        PRes::PErr { e } => {
            assert(false);
        },
    }
}

} // verus!

//! The analysis cache: the application state that memoizes the last analysis,
//! keyed on the raw input text, so that analyzing unchanged input returns the
//! stored outcome without re-running the pipeline.
use vstd::prelude::*;
use crate::ast::{spec_postfix, spec_prefix, Expr, SExpr};
use crate::error::{AnalyzerError, SErr};
use crate::graph::{Graph, SGr};
use crate::lexic::{initial_scan, spec_tokenize};
use crate::sintactic::{pres_ast, pres_ok, pres_st, pres_tree, s_analyze, Analyzed, Analyzer};
use crate::symbols::{SSym, SymbolsTable};
use crate::tree::{STree, TreeItem};

verus! {

/// The mathematical model of a successful analysis.
#[verifier::ext_equal]
pub ghost struct SState {
    pub postfix: Seq<char>,
    pub prefix: Seq<char>,
    pub tree: STree,
    pub symbols_table: SSym,
    pub graph: SGr,
    pub ast: SExpr,
}

/// Everything a successful analysis exposes: the two renderings, the parse
/// tree, the populated symbol table and expression graph, and the abstract
/// expression (from which a numeric result can be computed).
pub struct State {
    pub postfix: String,
    pub prefix: String,
    pub tree: TreeItem,
    pub symbols_table: SymbolsTable,
    pub graph: Graph,
    pub ast: Expr,
}

impl View for State {
    type V = SState;

    open spec fn view(&self) -> SState {
        SState {
            postfix: self.postfix@,
            prefix: self.prefix@,
            tree: self.tree@,
            symbols_table: self.symbols_table@,
            graph: self.graph@,
            ast: self.ast@,
        }
    }
}

impl State {
    /// A deep copy whose model is the same.
    pub fn duplicate(&self) -> (r: Self)
        ensures
            r@ == self@,
    {
        let r = State {
            postfix: self.postfix.clone(),
            prefix: self.prefix.clone(),
            tree: self.tree.clone(),
            symbols_table: self.symbols_table.duplicate(),
            graph: self.graph.duplicate(),
            ast: self.ast.clone(),
        };
        proof {
            assert(r@ =~~= self@);
        }
        r
    }
}

pub type AppResult = Result<State, AnalyzerError>;

/// What one full analysis of an input text must produce: the spec-level
/// tokenizer feeds the spec-level parser, and every channel of the outcome is
/// a function of the resulting expression and final parser state.
pub open spec fn spec_outcome(input: Seq<char>) -> Result<SState, SErr> {
    let toks = spec_tokenize(initial_scan(input));
    if pres_ok(s_analyze(toks)) {
        let ast = pres_ast(s_analyze(toks));
        Ok(
            SState {
                postfix: spec_postfix(ast),
                prefix: spec_prefix(ast),
                tree: pres_tree(s_analyze(toks)),
                symbols_table: pres_st(s_analyze(toks)).sym,
                graph: pres_st(s_analyze(toks)).gr,
                ast,
            },
        )
    } else {
        Err(s_analyze_err(toks))
    }
}

/// The error of a failed spec-level analysis.
pub open spec fn s_analyze_err(toks: Seq<crate::token::STok>) -> SErr {
    match s_analyze(toks) {
        crate::sintactic::PRes::POk { .. } => arbitrary(),
        crate::sintactic::PRes::PErr { e } => e,
    }
}

/// An analysis outcome agrees with the model of its input text.
pub open spec fn outcome_match(input: Seq<char>, r: AppResult) -> bool {
    match r {
        Ok(st) => spec_outcome(input) matches Ok(m) && st@ == m,
        Err(e) => spec_outcome(input) matches Err(me) && e@ == me,
    }
}

/// Runs one full analysis of an input text: on success the populated tables
/// move into the returned state together with the renderings, the parse tree,
/// and the abstract expression.
pub fn analyze_input(input: &String) -> (r: AppResult)
    ensures
        outcome_match(input@, r),
        match r {
            Ok(st) => st.symbols_table.wf() && st.graph.wf(),
            Err(_) => true,
        },
{
    let mut analyzer = Analyzer::new(input);
    let response = analyzer.analyze();
    match response {
        Err(e) => Err(e),
        Ok(az) => {
            let Analyzed { prefix, postfix, tree, node_hash: _, ast } = az;
            let st = State {
                prefix,
                postfix,
                tree,
                symbols_table: analyzer.symbols_table,
                graph: analyzer.graph,
                ast,
            };
            proof {
                assert(spec_outcome(input@) matches Ok(m) && st@ =~~= m);
            }
            Ok(st)
        },
    }
}

/// The application state: the text buffer being edited, and the memoized
/// outcome of the last analyzed input.
pub struct App {
    pub input: String,
    last_state: AppResult,
    last_input: String,
}

impl App {
    /// The cache is coherent: the stored outcome is the analysis of the
    /// stored input text.
    pub closed spec fn wf(self) -> bool {
        &&& outcome_match(self.last_input@, self.last_state)
        &&& match self.last_state {
            Ok(st) => st.symbols_table.wf() && st.graph.wf(),
            Err(_) => true,
        }
    }

    pub closed spec fn last_input_view(self) -> Seq<char> {
        self.last_input@
    }

    /// The current text buffer, as a sequence of characters.
    pub closed spec fn input_view(self) -> Seq<char> {
        self.input@
    }

    /// Analyzes the current input text.  Identical input is answered from the
    /// cache without re-running the pipeline or touching the stored tables;
    /// new input is analyzed afresh and replaces the memoized outcome.  Either
    /// way the outcome is exactly the analysis of the input text, so analyzing
    /// the same text twice yields identical outcomes.
    pub fn run_analyzer(&mut self) -> (r: AppResult)
        requires
            old(self).wf(),
        ensures
            final(self).wf(),
            final(self).input_view() == old(self).input_view(),
            final(self).last_input_view() == old(self).input_view(),
            outcome_match(old(self).input_view(), r),
            old(self).last_input_view() == old(self).input_view() ==> *final(self) == *old(self),
    {
        if self.last_input == self.input {
            let r = match &self.last_state {
                Ok(st) => Ok(st.duplicate()),
                Err(e) => Err(e.clone()),
            };
            proof {
                assert(outcome_match(old(self).input_view(), r));
            }
            return r;
        }
        let response = analyze_input(&self.input);
        self.last_input = self.input.clone();
        match response {
            Err(e) => {
                let stored = e.clone();
                self.last_state = Err(stored);
                Err(e)
            },
            Ok(st) => {
                let returned = st.duplicate();
                self.last_state = Ok(st);
                Ok(returned)
            },
        }
    }
}

impl Default for App {
    /// A fresh application: an empty text buffer, memoizing the analysis of
    /// the empty input (which fails with a syntax error at position 1).
    fn default() -> (r: Self)
        ensures
            r.wf(),
            r.input_view() == Seq::<char>::empty(),
            r.last_input_view() == Seq::<char>::empty(),
    {
        let empty = String::new();
        let outcome = analyze_input(&empty);
        App { input: String::new(), last_state: outcome, last_input: String::new() }
    }
}

} // verus!

//! The lexical analyzer: converts a character stream into a token stream with
//! one token of lookahead.  The spec-level scanner (`spec_next`,
//! `spec_tokenize`) pins down exactly which token every state produces.
use vstd::prelude::*;
use crate::error::{AnalyzerError, ErrorKind, SErr};
use crate::token::{spec_type_str, type_to_string, STok, Token, TokenType};

verus! {

/// Relies on std's String::push: appends one character at the end of the string.
pub assume_specification[ String::push ](s: &mut String, c: char)
    ensures
        final(s)@ == old(s)@.push(c),
;

/// The scanning state: the current lookahead character, the unconsumed rest of
/// the input, and the 1-based position of the current character.
#[verifier::ext_equal]
pub ghost struct SScan {
    pub cur: char,
    pub rem: Seq<char>,
    pub pos: int,
}

/// The model of the whole lexer: scanning state plus the stored lookahead token.
#[verifier::ext_equal]
pub ghost struct SLex {
    pub scan: SScan,
    pub tok: Option<STok>,
}

/// The scanning state just after priming on input `s`.
pub open spec fn initial_scan(s: Seq<char>) -> SScan {
    if s.len() == 0 {
        SScan { cur: '\0', rem: s, pos: 1 }
    } else {
        SScan { cur: s[0], rem: s.skip(1), pos: 1 }
    }
}

/// Discarding the current character and advancing the position by one: if
/// input remains, the next character is promoted; otherwise the current
/// character becomes the `'\0'` sentinel and the position points one past the
/// end.  (The position saturates at the machine limit, which no input a
/// machine can hold ever reaches.)
pub open spec fn advanced(st: SScan) -> SScan {
    if st.rem.len() > 0 {
        SScan { cur: st.rem[0], rem: st.rem.skip(1), pos: st.pos + 1 }
    } else {
        SScan {
            cur: '\0',
            rem: st.rem,
            pos: if st.pos < usize::MAX as int {
                st.pos + 1
            } else {
                st.pos
            },
        }
    }
}

pub open spec fn is_digit(c: char) -> bool {
    '0' <= c && c <= '9'
}

pub open spec fn is_letter(c: char) -> bool {
    ('a' <= c && c <= 'z') || ('A' <= c && c <= 'Z')
}

pub open spec fn is_word_char(c: char) -> bool {
    is_letter(c) || is_digit(c) || c == '_'
}

/// The token kind of a single-character operator or parenthesis.
pub open spec fn op_kind(c: char) -> Option<TokenType> {
    if c == '(' {
        Some(TokenType::OpenParenthesis)
    } else if c == ')' {
        Some(TokenType::ClosingParenthesis)
    } else if c == '-' {
        Some(TokenType::Minus)
    } else if c == '+' {
        Some(TokenType::Plus)
    } else if c == '/' {
        Some(TokenType::Slash)
    } else if c == '*' {
        Some(TokenType::Asterisk)
    } else {
        None
    }
}

/// How many characters the scanner still has in front of it.
pub open spec fn sm(st: SScan) -> nat {
    st.rem.len() + if st.cur == '\0' {
        0nat
    } else {
        1nat
    }
}

pub open spec fn spec_skip_spaces(st: SScan) -> SScan
    decreases st.rem.len(), (if st.cur == ' ' { 1nat } else { 0nat }),
{
    if st.cur == ' ' {
        spec_skip_spaces(advanced(st))
    } else {
        st
    }
}

/// The maximal run of digits starting at the current character, and the state
/// after it.
pub open spec fn spec_scan_digits(st: SScan) -> (Seq<char>, SScan)
    decreases st.rem.len(), (if is_digit(st.cur) { 1nat } else { 0nat }),
{
    if is_digit(st.cur) {
        let (tail, st2) = spec_scan_digits(advanced(st));
        (seq![st.cur] + tail, st2)
    } else {
        (Seq::empty(), st)
    }
}

/// The maximal run of letters, digits and underscores starting at the current
/// character, and the state after it.
pub open spec fn spec_scan_word(st: SScan) -> (Seq<char>, SScan)
    decreases st.rem.len(), (if is_word_char(st.cur) { 1nat } else { 0nat }),
{
    if is_word_char(st.cur) {
        let (tail, st2) = spec_scan_word(advanced(st));
        (seq![st.cur] + tail, st2)
    } else {
        (Seq::empty(), st)
    }
}

/// The next token of a scanning state, and the state after it.  Spaces are
/// skipped first; the token's position is the 1-based position of its first
/// character.  The `'\0'` sentinel yields an end-of-input token and an unknown
/// character yields an `Unknown` token, neither of which consumes anything.
pub open spec fn spec_next(st: SScan) -> (STok, SScan) {
    let st1 = spec_skip_spaces(st);
    let c = st1.cur;
    if c == '\0' {
        (STok { kind: TokenType::EOF, lexeme: seq!['\0'], position: st1.pos }, st1)
    } else if let Some(k) = op_kind(c) {
        (STok { kind: k, lexeme: seq![c], position: st1.pos }, advanced(st1))
    } else if is_digit(c) {
        let (lx, st2) = spec_scan_digits(st1);
        (STok { kind: TokenType::Number, lexeme: lx, position: st1.pos }, st2)
    } else if is_letter(c) || c == '_' {
        let (lx, st2) = spec_scan_word(st1);
        (STok { kind: TokenType::Id, lexeme: lx, position: st1.pos }, st2)
    } else {
        (STok { kind: TokenType::Unknown, lexeme: seq![c], position: st1.pos }, st1)
    }
}

/// A token on which the scanner makes no progress: analysis never consumes one.
pub open spec fn is_terminal(t: STok) -> bool {
    t.kind == TokenType::EOF || t.kind == TokenType::Unknown
}

/// The full token stream of a scanning state: all tokens up to and including
/// the first end-of-input or unknown token.
pub open spec fn spec_tokenize(st: SScan) -> Seq<STok>
    decreases sm(st),
{
    let (t, st2) = spec_next(st);
    if is_terminal(t) {
        seq![t]
    } else if sm(st2) < sm(st) {
        seq![t] + spec_tokenize(st2)
    } else {
        seq![t]
    }
}

pub proof fn lemma_advanced(st: SScan)
    ensures
        sm(advanced(st)) <= sm(st),
        st.cur != '\0' ==> sm(advanced(st)) < sm(st),
{
}

pub proof fn lemma_skip_spaces(st: SScan)
    ensures
        sm(spec_skip_spaces(st)) <= sm(st),
        spec_skip_spaces(st).cur != ' ',
    decreases st.rem.len(), (if st.cur == ' ' { 1nat } else { 0nat }),
{
    if st.cur == ' ' {
        lemma_advanced(st);
        lemma_skip_spaces(advanced(st));
    }
}

pub proof fn lemma_scan_digits(st: SScan)
    ensures
        sm(spec_scan_digits(st).1) <= sm(st),
        is_digit(st.cur) ==> sm(spec_scan_digits(st).1) < sm(st),
        !is_digit(spec_scan_digits(st).1.cur),
        forall|i: int| 0 <= i < spec_scan_digits(st).0.len() ==> is_digit(
            #[trigger] spec_scan_digits(st).0[i],
        ),
        is_digit(st.cur) ==> spec_scan_digits(st).0.len() > 0,
    decreases st.rem.len(), (if is_digit(st.cur) { 1nat } else { 0nat }),
{
    if is_digit(st.cur) {
        lemma_advanced(st);
        lemma_scan_digits(advanced(st));
    }
}

pub proof fn lemma_scan_word(st: SScan)
    ensures
        sm(spec_scan_word(st).1) <= sm(st),
        is_word_char(st.cur) ==> sm(spec_scan_word(st).1) < sm(st),
        !is_word_char(spec_scan_word(st).1.cur),
        forall|i: int| 0 <= i < spec_scan_word(st).0.len() ==> is_word_char(
            #[trigger] spec_scan_word(st).0[i],
        ),
        is_word_char(st.cur) ==> spec_scan_word(st).0.len() > 0,
    decreases st.rem.len(), (if is_word_char(st.cur) { 1nat } else { 0nat }),
{
    if is_word_char(st.cur) {
        lemma_advanced(st);
        lemma_scan_word(advanced(st));
    }
}

/// After a non-terminal token the scanner has strictly fewer characters left.
pub proof fn lemma_next(st: SScan)
    ensures
        sm(spec_next(st).1) <= sm(st),
        !is_terminal(spec_next(st).0) ==> sm(spec_next(st).1) < sm(st),
{
    lemma_skip_spaces(st);
    let st1 = spec_skip_spaces(st);
    lemma_advanced(st1);
    lemma_scan_digits(st1);
    lemma_scan_word(st1);
}

/// The token stream starts with the next token, and continues with the stream
/// of the state after it whenever that token is not terminal.
pub proof fn lemma_tokenize_unfold(st: SScan)
    ensures
        spec_tokenize(st).len() >= 1,
        spec_tokenize(st)[0] == spec_next(st).0,
        !is_terminal(spec_next(st).0) ==> spec_tokenize(st) == seq![spec_next(st).0]
            + spec_tokenize(spec_next(st).1),
        is_terminal(spec_next(st).0) ==> spec_tokenize(st) == seq![spec_next(st).0],
{
    lemma_next(st);
}

/// Every token stream ends with its one terminal token.
pub proof fn lemma_tokenize_wf(st: SScan)
    ensures
        spec_tokenize(st).len() >= 1,
        is_terminal(spec_tokenize(st).last()),
        forall|i: int| 0 <= i < spec_tokenize(st).len() - 1 ==> !is_terminal(
            #[trigger] spec_tokenize(st)[i],
        ),
    decreases sm(st),
{
    lemma_tokenize_unfold(st);
    let (t, st2) = spec_next(st);
    if !is_terminal(t) {
        lemma_next(st);
        lemma_tokenize_wf(st2);
        assert forall|i: int| 0 <= i < spec_tokenize(st).len() - 1 implies !is_terminal(
            #[trigger] spec_tokenize(st)[i],
        ) by {
            if i > 0 {
                assert(spec_tokenize(st)[i] == spec_tokenize(st2)[i - 1]);
            }
        }
    }
}

/// Every token carries the lexeme its kind promises: operators their one
/// character, numbers a non-empty digit run, identifiers a non-empty word run.
pub open spec fn tok_kind_ok(t: STok) -> bool {
    &&& t.kind == TokenType::Plus ==> t.lexeme == seq!['+']
    &&& t.kind == TokenType::Minus ==> t.lexeme == seq!['-']
    &&& t.kind == TokenType::Asterisk ==> t.lexeme == seq!['*']
    &&& t.kind == TokenType::Slash ==> t.lexeme == seq!['/']
    &&& t.kind == TokenType::Number ==> t.lexeme.len() > 0 && (forall|i: int|
        0 <= i < t.lexeme.len() ==> is_digit(#[trigger] t.lexeme[i]))
    &&& t.kind == TokenType::Id ==> t.lexeme.len() > 0 && (forall|i: int|
        0 <= i < t.lexeme.len() ==> is_word_char(#[trigger] t.lexeme[i]))
}

pub proof fn lemma_next_kind(st: SScan)
    ensures
        tok_kind_ok(spec_next(st).0),
{
    let st1 = spec_skip_spaces(st);
    lemma_scan_digits(st1);
    lemma_scan_word(st1);
}

/// Every token of the stream carries the lexeme its kind promises.
pub proof fn lemma_tokenize_kinds(st: SScan)
    ensures
        forall|i: int| 0 <= i < spec_tokenize(st).len() ==> tok_kind_ok(
            #[trigger] spec_tokenize(st)[i],
        ),
    decreases sm(st),
{
    lemma_tokenize_unfold(st);
    lemma_next_kind(st);
    let (t, st2) = spec_next(st);
    if !is_terminal(t) {
        lemma_next(st);
        lemma_tokenize_kinds(st2);
        assert forall|i: int| 0 <= i < spec_tokenize(st).len() implies tok_kind_ok(
            #[trigger] spec_tokenize(st)[i],
        ) by {
            if i > 0 {
                assert(spec_tokenize(st)[i] == spec_tokenize(st2)[i - 1]);
            }
        }
    }
}

#[derive(Debug)]
pub struct LexicAnalyzer {
    pub current: char,
    pub input: Vec<char>,
    pub pos: usize,
    pub token: Option<Token>,
}

pub type LexicResult = Result<Token, AnalyzerError>;

impl View for LexicAnalyzer {
    type V = SLex;

    open spec fn view(&self) -> SLex {
        SLex {
            scan: SScan { cur: self.current, rem: self.input@, pos: self.pos as int },
            tok: match self.token {
                Some(t) => Some(t@),
                None => None,
            },
        }
    }
}

impl LexicAnalyzer {
    /// Positions stay within machine range: the position counter never moves
    /// past one step per remaining character.
    pub open spec fn wf(self) -> bool {
        self.pos >= 1 && self.pos + self.input@.len() <= usize::MAX
    }

    pub fn new(input: &String) -> (r: Self)
        ensures
            r.wf(),
            r@.scan == initial_scan(input@),
            r@.tok is None,
    {
        let s = input.as_str();
        let n = s.unicode_len();
        let mut chars: Vec<char> = Vec::new();
        let mut i: usize = 0;
        while i < n
            invariant
                i <= n,
                n == s@.len(),
                chars@ == s@.take(i as int),
            decreases n - i,
        {
            chars.push(s.get_char(i));
            proof {
                assert(s@.take(i + 1 as int) =~= s@.take(i as int).push(s@[i as int]));
            }
            i = i + 1;
        }
        proof {
            assert(s@.take(n as int) =~= s@);
        }
        if chars.len() > 0 {
            let current = chars.remove(0);
            let r = LexicAnalyzer { pos: 1, current, input: chars, token: None };
            proof {
                assert(r@.scan =~= initial_scan(input@));
            }
            r
        } else {
            let r = LexicAnalyzer { pos: 1, current: '\0', input: chars, token: None };
            proof {
                assert(r@.scan =~= initial_scan(input@));
            }
            r
        }
    }

    fn next_char(&mut self)
        requires
            old(self).wf(),
        ensures
            final(self).wf(),
            final(self)@.scan == advanced(old(self)@.scan),
            final(self).token == old(self).token,
    {
        if self.input.len() > 0 {
            self.pos = self.pos + 1;
            self.current = self.input.remove(0);
            proof {
                assert(self@.scan =~= advanced(old(self)@.scan));
            }
        } else {
            if self.pos < usize::MAX {
                self.pos = self.pos + 1;
            }
            self.current = '\0';
            proof {
                assert(self@.scan =~= advanced(old(self)@.scan));
            }
        }
    }

    /// Consumes one character if it is a digit.
    pub fn digit(&mut self) -> (r: Option<char>)
        requires
            old(self).wf(),
        ensures
            final(self).wf(),
            final(self).token == old(self).token,
            match r {
                Some(c) => is_digit(old(self)@.scan.cur) && c == old(self)@.scan.cur && final(self)@.scan == advanced(old(self)@.scan),
                None => !is_digit(old(self)@.scan.cur) && *final(self) == *old(self),
            },
    {
        if !('0' <= self.current && self.current <= '9') {
            return None;
        }
        let res = self.current;
        self.next_char();
        Some(res)
    }

    /// Consumes one character if it is a letter.
    pub fn letter(&mut self) -> (r: Option<char>)
        requires
            old(self).wf(),
        ensures
            final(self).wf(),
            final(self).token == old(self).token,
            match r {
                Some(c) => is_letter(old(self)@.scan.cur) && c == old(self)@.scan.cur && final(self)@.scan == advanced(old(self)@.scan),
                None => !is_letter(old(self)@.scan.cur) && *final(self) == *old(self),
            },
    {
        let c = self.current;
        if ('a' <= c && c <= 'z') || ('A' <= c && c <= 'Z') {
            self.next_char();
            Some(c)
        } else {
            None
        }
    }

    /// Accumulates the rest of a digit run after `prev`.
    pub fn rest_num(&mut self, prev: &str) -> (r: String)
        requires
            old(self).wf(),
        ensures
            final(self).wf(),
            final(self).token == old(self).token,
            r@ == prev@ + spec_scan_digits(old(self)@.scan).0,
            final(self)@.scan == spec_scan_digits(old(self)@.scan).1,
        decreases sm(old(self)@.scan),
    {
        proof {
            lemma_advanced(old(self)@.scan);
        }
        if let Some(digit) = self.digit() {
            let mut next = String::from_str(prev);
            next.push(digit);
            let r = self.rest_num(next.as_str());
            proof {
                assert(r@ =~= prev@ + spec_scan_digits(old(self)@.scan).0);
            }
            r
        } else {
            let r = String::from_str(prev);
            proof {
                assert(r@ =~= prev@ + spec_scan_digits(old(self)@.scan).0);
            }
            r
        }
    }

    /// Scans a number lexeme: a maximal run of digits.
    pub fn number(&mut self) -> (r: Option<String>)
        requires
            old(self).wf(),
        ensures
            final(self).wf(),
            final(self).token == old(self).token,
            match r {
                Some(s) => is_digit(old(self)@.scan.cur) && s@ == spec_scan_digits(old(self)@.scan).0 && final(self)@.scan == spec_scan_digits(old(self)@.scan).1,
                None => !is_digit(old(self)@.scan.cur) && *final(self) == *old(self),
            },
    {
        if let Some(digit) = self.digit() {
            let mut first = String::new();
            first.push(digit);
            let r = self.rest_num(first.as_str());
            proof {
                assert(r@ =~= spec_scan_digits(old(self)@.scan).0);
            }
            return Some(r);
        }
        None
    }

    /// Accumulates the rest of an identifier after `prev`: letters, digits and
    /// underscores.
    pub fn rest_id(&mut self, prev: &str) -> (r: String)
        requires
            old(self).wf(),
        ensures
            final(self).wf(),
            final(self).token == old(self).token,
            r@ == prev@ + spec_scan_word(old(self)@.scan).0,
            final(self)@.scan == spec_scan_word(old(self)@.scan).1,
        decreases sm(old(self)@.scan),
    {
        proof {
            lemma_advanced(old(self)@.scan);
        }
        if let Some(letter) = self.letter() {
            let mut next = String::from_str(prev);
            next.push(letter);
            let r = self.rest_id(next.as_str());
            proof {
                assert(r@ =~= prev@ + spec_scan_word(old(self)@.scan).0);
            }
            return r;
        }
        if self.current == '_' {
            let mut next = String::from_str(prev);
            next.push('_');
            self.next_char();
            let r = self.rest_id(next.as_str());
            proof {
                assert(r@ =~= prev@ + spec_scan_word(old(self)@.scan).0);
            }
            return r;
        }
        if let Some(digit) = self.digit() {
            let mut next = String::from_str(prev);
            next.push(digit);
            let r = self.rest_id(next.as_str());
            proof {
                assert(r@ =~= prev@ + spec_scan_word(old(self)@.scan).0);
            }
            return r;
        }
        let r = String::from_str(prev);
        proof {
            assert(r@ =~= prev@ + spec_scan_word(old(self)@.scan).0);
        }
        r
    }

    /// Scans an identifier lexeme: a letter or underscore followed by letters,
    /// digits and underscores.
    pub fn id(&mut self) -> (r: Option<String>)
        requires
            old(self).wf(),
        ensures
            final(self).wf(),
            final(self).token == old(self).token,
            match r {
                Some(s) => (is_letter(old(self)@.scan.cur) || old(self)@.scan.cur == '_') && s@
                    == spec_scan_word(old(self)@.scan).0 && final(self)@.scan == spec_scan_word(old(self)@.scan).1,
                None => !(is_letter(old(self)@.scan.cur) || old(self)@.scan.cur == '_') && *final(self) == *old(self),
            },
    {
        if let Some(letter) = self.letter() {
            let mut first = String::new();
            first.push(letter);
            let r = self.rest_id(first.as_str());
            proof {
                assert(r@ =~= spec_scan_word(old(self)@.scan).0);
            }
            return Some(r);
        }
        if self.current == '_' {
            let mut first = String::new();
            first.push('_');
            self.next_char();
            let r = self.rest_id(first.as_str());
            proof {
                assert(r@ =~= spec_scan_word(old(self)@.scan).0);
            }
            return Some(r);
        }
        None
    }

    /// Produces the token of a single-character operator or parenthesis.
    pub fn single_char_token(&mut self) -> (r: Option<Token>)
        requires
            old(self).wf(),
        ensures
            final(self).wf(),
            final(self).token == old(self).token,
            match r {
                Some(t) => op_kind(old(self)@.scan.cur) == Some(t@.kind) && t@ == (STok {
                    kind: t@.kind,
                    lexeme: seq![old(self)@.scan.cur],
                    position: old(self)@.scan.pos,
                }) && final(self)@.scan == advanced(old(self)@.scan),
                None => op_kind(old(self)@.scan.cur) is None && *final(self) == *old(self),
            },
    {
        let c = self.current;
        let kind = if c == '(' {
            TokenType::OpenParenthesis
        } else if c == ')' {
            TokenType::ClosingParenthesis
        } else if c == '-' {
            TokenType::Minus
        } else if c == '+' {
            TokenType::Plus
        } else if c == '/' {
            TokenType::Slash
        } else if c == '*' {
            TokenType::Asterisk
        } else {
            return None;
        };
        let mut lexeme = String::new();
        lexeme.push(c);
        let token = Token { position: self.pos, lexeme, token_type: kind };
        self.next_char();
        Some(token)
    }

    /// Scans the next token, stores it as the lookahead, and returns it.
    pub fn consume_token(&mut self) -> (r: Option<Token>)
        requires
            old(self).wf(),
        ensures
            final(self).wf(),
            final(self)@.scan == spec_next(old(self)@.scan).1,
            final(self)@.tok == Some(spec_next(old(self)@.scan).0),
            match r {
                Some(t) => t@ == spec_next(old(self)@.scan).0,
                None => false,
            },
    {
        while self.current == ' '
            invariant
                self.wf(),
                self.token == old(self).token,
                spec_skip_spaces(self@.scan) == spec_skip_spaces(old(self)@.scan),
            decreases sm(self@.scan),
        {
            proof {
                lemma_advanced(self@.scan);
            }
            self.next_char();
        }
        let ghost st1 = spec_skip_spaces(old(self)@.scan);
        proof {
            assert(self@.scan == st1);
        }
        if let Some(token) = self.single_char_token() {
            self.token = Some(token.clone());
            return Some(token);
        }
        let position = self.pos;
        let kind: TokenType;
        let mut lexeme: String;
        if '0' <= self.current && self.current <= '9' {
            kind = TokenType::Number;
            if let Some(num) = self.number() {
                lexeme = num;
            } else {
                return None;
            }
        } else if ('a' <= self.current && self.current <= 'z') || ('A' <= self.current
            && self.current <= 'Z') || self.current == '_' {
            kind = TokenType::Id;
            if let Some(id) = self.id() {
                lexeme = id;
            } else {
                return None;
            }
        } else if self.current == '\0' {
            kind = TokenType::EOF;
            lexeme = String::new();
            lexeme.push('\0');
        } else {
            kind = TokenType::Unknown;
            lexeme = String::new();
            lexeme.push(self.current);
        }
        let token = Token { position, lexeme, token_type: kind };
        self.token = Some(token.clone());
        Some(token)
    }

    /// If the lookahead token has the expected kind, consumes it and returns
    /// it; otherwise reports a lexical mismatch carrying the lookahead's
    /// lexeme, its position, and the description of the expected kind.
    pub fn check_and_next(&mut self, expected: &TokenType) -> (r: LexicResult)
        requires
            old(self).wf(),
        ensures
            final(self).wf(),
            match r {
                Ok(t) => old(self)@.tok == Some(t@) && t@.kind == *expected && final(self)@.scan
                    == spec_next(old(self)@.scan).1 && final(self)@.tok == Some(
                    spec_next(old(self)@.scan).0,
                ),
                Err(e) => *final(self) == *old(self) && match old(self)@.tok {
                    Some(st) => st.kind != *expected && e@ == (SErr {
                        kind: ErrorKind::LexicalMismatch,
                        character: st.lexeme,
                        pos: st.position,
                        expected: spec_type_str(*expected),
                    }),
                    None => e@ == (SErr {
                        kind: ErrorKind::LexicalMismatch,
                        character: seq![old(self)@.scan.cur],
                        pos: old(self)@.scan.pos,
                        expected: spec_type_str(*expected),
                    }),
                },
            },
    {
        let token = match &self.token {
            Some(t) => t.clone(),
            None => {
                let mut character = String::new();
                character.push(self.current);
                let expected_str = type_to_string(expected);
                return Err(
                    AnalyzerError::new(
                        ErrorKind::LexicalMismatch,
                        character.as_str(),
                        self.pos,
                        expected_str.as_str(),
                    ),
                );
            },
        };
        if *expected != token.token_type {
            let expected_str = type_to_string(expected);
            return Err(
                AnalyzerError::new(
                    ErrorKind::LexicalMismatch,
                    token.lexeme.as_str(),
                    token.position,
                    expected_str.as_str(),
                ),
            );
        }
        self.consume_token();
        Ok(token)
    }
}

} // verus!

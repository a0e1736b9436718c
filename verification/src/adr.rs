//! ADR documents and ADRLogic: the domain types, the expression lexer and parser.
use vstd::prelude::*;
use crate::project::SourceSpan;
use crate::text::{chars_of, is_ascii_alnum, is_ascii_alnum_exec, is_ws, occurs_at, occurs_at_exec, own, slice_string};

verus! {

/// Lifecycle status of an ADR.
#[derive(Debug, Clone, Copy, PartialEq, Eq, Structural)]
pub enum Status {
    Proposed,
    Accepted,
    Deprecated,
    Superseded,
}

/// A declaration of the ADRLogic vocabulary.
#[derive(Debug)]
pub enum Decl {
    Bool(String),
    EntityType { name: String, members: Vec<String> },
    Relation { name: String, args: Vec<String> },
}

/// An ADRLogic expression.
#[derive(Debug)]
pub enum Expr {
    Bool(bool),
    Name(String),
    Call(String, Vec<String>),
    Eq(String, String),
    Ne(String, String),
    Not(Box<Expr>),
    And(Box<Expr>, Box<Expr>),
    Or(Box<Expr>, Box<Expr>),
    Implies(Box<Expr>, Box<Expr>),
    Forall { var: String, ty: String, guard: Option<Box<Expr>>, body: Box<Expr> },
    Exists { var: String, ty: String, guard: Option<Box<Expr>>, body: Box<Expr> },
}

/// The specification-level view of an expression.
pub enum SExpr {
    Bool(bool),
    Name(Seq<char>),
    Call(Seq<char>, Seq<Seq<char>>),
    Eq(Seq<char>, Seq<char>),
    Ne(Seq<char>, Seq<char>),
    Not(Box<SExpr>),
    And(Box<SExpr>, Box<SExpr>),
    Or(Box<SExpr>, Box<SExpr>),
    Implies(Box<SExpr>, Box<SExpr>),
    Forall { var: Seq<char>, ty: Seq<char>, guard: Option<Box<SExpr>>, body: Box<SExpr> },
    Exists { var: Seq<char>, ty: Seq<char>, guard: Option<Box<SExpr>>, body: Box<SExpr> },
}

/// The texts of a list of strings.
pub open spec fn strs(v: Seq<String>) -> Seq<Seq<char>> {
    v.map_values(|x: String| x@)
}

pub open spec fn expr_view(e: Expr) -> SExpr
    decreases e,
{
    match e {
        Expr::Bool(b) => SExpr::Bool(b),
        Expr::Name(n) => SExpr::Name(n@),
        Expr::Call(n, a) => SExpr::Call(n@, strs(a@)),
        Expr::Eq(a, b) => SExpr::Eq(a@, b@),
        Expr::Ne(a, b) => SExpr::Ne(a@, b@),
        Expr::Not(x) => SExpr::Not(Box::new(expr_view(*x))),
        Expr::And(a, b) => SExpr::And(Box::new(expr_view(*a)), Box::new(expr_view(*b))),
        Expr::Or(a, b) => SExpr::Or(Box::new(expr_view(*a)), Box::new(expr_view(*b))),
        Expr::Implies(a, b) => SExpr::Implies(Box::new(expr_view(*a)), Box::new(expr_view(*b))),
        Expr::Forall { var, ty, guard, body } => SExpr::Forall {
            var: var@,
            ty: ty@,
            guard: match guard {
                Some(g) => Some(Box::new(expr_view(*g))),
                None => None,
            },
            body: Box::new(expr_view(*body)),
        },
        Expr::Exists { var, ty, guard, body } => SExpr::Exists {
            var: var@,
            ty: ty@,
            guard: match guard {
                Some(g) => Some(Box::new(expr_view(*g))),
                None => None,
            },
            body: Box::new(expr_view(*body)),
        },
    }
}

impl View for Expr {
    type V = SExpr;

    open spec fn view(&self) -> SExpr {
        expr_view(*self)
    }
}

impl Clone for Expr {
    fn clone(&self) -> (r: Self)
        ensures
            r@ == self@,
        decreases self,
    {
        match self {
            Expr::Bool(b) => Expr::Bool(*b),
            Expr::Name(n) => Expr::Name(n.clone()),
            Expr::Call(n, a) => Expr::Call(n.clone(), crate::project::clone_strings(a)),
            Expr::Eq(a, b) => Expr::Eq(a.clone(), b.clone()),
            Expr::Ne(a, b) => Expr::Ne(a.clone(), b.clone()),
            Expr::Not(x) => Expr::Not(Box::new((**x).clone())),
            Expr::And(a, b) => Expr::And(Box::new((**a).clone()), Box::new((**b).clone())),
            Expr::Or(a, b) => Expr::Or(Box::new((**a).clone()), Box::new((**b).clone())),
            Expr::Implies(a, b) => Expr::Implies(Box::new((**a).clone()), Box::new((**b).clone())),
            Expr::Forall { var, ty, guard, body } => Expr::Forall {
                var: var.clone(),
                ty: ty.clone(),
                guard: match guard {
                    Some(g) => Some(Box::new((**g).clone())),
                    None => None,
                },
                body: Box::new((**body).clone()),
            },
            Expr::Exists { var, ty, guard, body } => Expr::Exists {
                var: var.clone(),
                ty: ty.clone(),
                guard: match guard {
                    Some(g) => Some(Box::new((**g).clone())),
                    None => None,
                },
                body: Box::new((**body).clone()),
            },
        }
    }
}

/// The specification-level view of a declaration.
pub enum SDecl {
    Bool(Seq<char>),
    EntityType { name: Seq<char>, members: Seq<Seq<char>> },
    Relation { name: Seq<char>, args: Seq<Seq<char>> },
}

impl View for Decl {
    type V = SDecl;

    open spec fn view(&self) -> SDecl {
        match self {
            Decl::Bool(n) => SDecl::Bool(n@),
            Decl::EntityType { name, members } => SDecl::EntityType { name: name@, members: strs(members@) },
            Decl::Relation { name, args } => SDecl::Relation { name: name@, args: strs(args@) },
        }
    }
}

impl Clone for Decl {
    fn clone(&self) -> (r: Self)
        ensures
            r@ == self@,
    {
        match self {
            Decl::Bool(n) => Decl::Bool(n.clone()),
            Decl::EntityType { name, members } => Decl::EntityType {
                name: name.clone(),
                members: crate::project::clone_strings(members),
            },
            Decl::Relation { name, args } => Decl::Relation {
                name: name.clone(),
                args: crate::project::clone_strings(args),
            },
        }
    }
}

/// The views of a declaration list.
pub open spec fn decl_views(s: Seq<Decl>) -> Seq<SDecl> {
    s.map_values(|x: Decl| x@)
}

/// A named rule of an ADR.
#[derive(Debug)]
pub struct Clause {
    pub adr_id: String,
    pub id: String,
    pub description: String,
    pub span: SourceSpan,
    pub expression: Expr,
}

/// The specification-level view of a clause.
pub struct SClause {
    pub adr_id: Seq<char>,
    pub id: Seq<char>,
    pub description: Seq<char>,
    pub filename: Seq<char>,
    pub line: usize,
    pub column: usize,
    pub expression: SExpr,
}

impl View for Clause {
    type V = SClause;

    open spec fn view(&self) -> SClause {
        SClause {
            adr_id: self.adr_id@,
            id: self.id@,
            description: self.description@,
            filename: self.span.filename@,
            line: self.span.line,
            column: self.span.column,
            expression: self.expression@,
        }
    }
}

impl Clone for Clause {
    fn clone(&self) -> (r: Self)
        ensures
            r@ == self@,
    {
        Clause {
            adr_id: self.adr_id.clone(),
            id: self.id.clone(),
            description: self.description.clone(),
            span: self.span.clone(),
            expression: self.expression.clone(),
        }
    }
}

/// One parsed architecture decision record.
#[derive(Debug)]
pub struct Adr {
    pub id: String,
    pub status: Status,
    pub supersedes: Vec<String>,
    pub amends: Vec<String>,
    pub exception_to: Vec<String>,
    pub clauses: Vec<Clause>,
    pub declarations: Vec<Decl>,
}

impl Clone for Adr {
    fn clone(&self) -> (r: Self)
        ensures
            r.id@ == self.id@,
            r.status == self.status,
            r.clauses@.len() == self.clauses@.len(),
            r.declarations@.len() == self.declarations@.len(),
    {
        let mut clauses: Vec<Clause> = Vec::new();
        let mut i: usize = 0;
        while i < self.clauses.len()
            invariant
                i <= self.clauses@.len(),
                clauses@.len() == i,
            decreases self.clauses.len() - i,
        {
            clauses.push(self.clauses[i].clone());
            i = i + 1;
        }
        let mut declarations: Vec<Decl> = Vec::new();
        let mut i: usize = 0;
        while i < self.declarations.len()
            invariant
                i <= self.declarations@.len(),
                declarations@.len() == i,
            decreases self.declarations.len() - i,
        {
            declarations.push(self.declarations[i].clone());
            i = i + 1;
        }
        Adr {
            id: own(self.id.as_str()),
            status: self.status,
            supersedes: crate::project::clone_strings(&self.supersedes),
            amends: crate::project::clone_strings(&self.amends),
            exception_to: crate::project::clone_strings(&self.exception_to),
            clauses,
            declarations,
        }
    }
}

/// Everything that can go wrong.
#[derive(Debug)]
pub enum Error {
    Io { path: String, message: String },
    Diagnostic { path: String, line: usize, column: usize, message: String },
    InvalidReference { adr_id: String, reference: String },
    SolverMissing(String),
    SolverVersion { expected: String, actual: String },
    Timeout(u64),
    SolverFailure(String),
    ProviderFailure(String),
    ExternalProviderFailure { code: String, message: String },
}

/// A located diagnostic.
pub fn diag(path: &str, line: usize, column: usize, message: &str) -> (r: Error)
    ensures
        r matches Error::Diagnostic { path: p, line: l, column: c, message: m } && p@ == path@ && l
            == line && c == column && m@ == message@,
{
    Error::Diagnostic { path: own(path), line, column, message: own(message) }
}

// ---------------------------------------------------------------------------
// Lexer
// ---------------------------------------------------------------------------

/// A token of an ADRLogic expression.
#[derive(Debug)]
pub enum Tok {
    Id(String),
    True,
    False,
    Not,
    And,
    Or,
    Imp,
    Eq,
    Ne,
    Lp,
    Rp,
    Comma,
    Colon,
    Forall,
    Exists,
    Where,
}

/// The specification-level view of a token.
pub enum STok {
    Id(Seq<char>),
    True,
    False,
    Not,
    And,
    Or,
    Imp,
    Eq,
    Ne,
    Lp,
    Rp,
    Comma,
    Colon,
    Forall,
    Exists,
    Where,
}

impl View for Tok {
    type V = STok;

    open spec fn view(&self) -> STok {
        match self {
            Tok::Id(a) => STok::Id(a@),
            Tok::True => STok::True,
            Tok::False => STok::False,
            Tok::Not => STok::Not,
            Tok::And => STok::And,
            Tok::Or => STok::Or,
            Tok::Imp => STok::Imp,
            Tok::Eq => STok::Eq,
            Tok::Ne => STok::Ne,
            Tok::Lp => STok::Lp,
            Tok::Rp => STok::Rp,
            Tok::Comma => STok::Comma,
            Tok::Colon => STok::Colon,
            Tok::Forall => STok::Forall,
            Tok::Exists => STok::Exists,
            Tok::Where => STok::Where,
        }
    }
}

/// The views of a token sequence.
pub open spec fn toks_view(t: Seq<Tok>) -> Seq<STok> {
    t.map_values(|x: Tok| x@)
}

/// Characters that may form an identifier or keyword.
pub open spec fn is_word_char(c: char) -> bool {
    is_ascii_alnum(c) || c == '_' || c == '-' || c == '.'
}

/// End of the run of word characters starting at `i`.
pub open spec fn word_end(s: Seq<char>, i: int) -> int
    decreases s.len() - i,
{
    if i < 0 || i >= s.len() || !is_word_char(s[i]) {
        i
    } else {
        word_end(s, i + 1)
    }
}

/// The token for a word: a keyword or an identifier.
pub open spec fn word_token(w: Seq<char>) -> STok {
    if w == "true"@ {
        STok::True
    } else if w == "false"@ {
        STok::False
    } else if w == "forall"@ {
        STok::Forall
    } else if w == "exists"@ {
        STok::Exists
    } else if w == "where"@ {
        STok::Where
    } else if w == "and"@ {
        STok::And
    } else if w == "or"@ {
        STok::Or
    } else if w == "not"@ {
        STok::Not
    } else if w == "implies"@ {
        STok::Imp
    } else {
        STok::Id(w)
    }
}

/// The tokens of `s` from index `i` on: whitespace separates tokens, the two-character
/// operators `&& || => != ==` take precedence over `! ( ) , :`, a run of word characters
/// is a keyword or identifier, and any other character is skipped.
pub open spec fn lex_from(s: Seq<char>, i: int) -> Seq<STok>
    decreases s.len() - i, 1int,
{
    if i < 0 || i >= s.len() {
        Seq::empty()
    } else if is_ws(s[i]) {
        lex_from(s, i + 1)
    } else if i + 2 <= s.len() && occurs_at(s, i, "&&"@) {
        seq![STok::And] + lex_from(s, i + 2)
    } else if i + 2 <= s.len() && occurs_at(s, i, "||"@) {
        seq![STok::Or] + lex_from(s, i + 2)
    } else if i + 2 <= s.len() && occurs_at(s, i, "=>"@) {
        seq![STok::Imp] + lex_from(s, i + 2)
    } else if i + 2 <= s.len() && occurs_at(s, i, "!="@) {
        seq![STok::Ne] + lex_from(s, i + 2)
    } else if i + 2 <= s.len() && occurs_at(s, i, "=="@) {
        seq![STok::Eq] + lex_from(s, i + 2)
    } else if s[i] == '!' {
        seq![STok::Not] + lex_from(s, i + 1)
    } else if s[i] == '(' {
        seq![STok::Lp] + lex_from(s, i + 1)
    } else if s[i] == ')' {
        seq![STok::Rp] + lex_from(s, i + 1)
    } else if s[i] == ',' {
        seq![STok::Comma] + lex_from(s, i + 1)
    } else if s[i] == ':' {
        seq![STok::Colon] + lex_from(s, i + 1)
    } else if !is_word_char(s[i]) {
        lex_from(s, i + 1)
    } else {
        lex_word(s, i)
    }
}

pub open spec fn lex_word(s: Seq<char>, i: int) -> Seq<STok>
    recommends
        0 <= i < s.len(),
        is_word_char(s[i]),
    decreases s.len() - i, 0int,
{
    if 0 <= i < s.len() && is_word_char(s[i]) {
        let j = word_end(s, i + 1);
        if j > i && j <= s.len() {
            seq![word_token(s.subrange(i, j))] + lex_from(s, j)
        } else {
            Seq::empty()
        }
    } else {
        Seq::empty()
    }
}

proof fn lemma_word_end_bounds(s: Seq<char>, i: int)
    requires
        0 <= i <= s.len(),
    ensures
        i <= word_end(s, i) <= s.len(),
        forall|k: int| i <= k < word_end(s, i) ==> is_word_char(#[trigger] s[k]),
        word_end(s, i) < s.len() ==> !is_word_char(s[word_end(s, i)]),
    decreases s.len() - i,
{
    if i < s.len() && is_word_char(s[i]) {
        lemma_word_end_bounds(s, i + 1);
    }
}

fn is_word_char_exec(c: char) -> (r: bool)
    ensures
        r == is_word_char(c),
{
    is_ascii_alnum_exec(c) || c == '_' || c == '-' || c == '.'
}

fn is_ws_exec(c: char) -> (r: bool)
    ensures
        r == is_ws(c),
{
    c == ' ' || c == '\t' || c == '\n' || c == '\r' || c == '\x0C'
}

fn word_token_exec(s: &Vec<char>, i: usize, j: usize) -> (t: Tok)
    requires
        i <= j <= s@.len(),
    ensures
        t@ == word_token(s@.subrange(i as int, j as int)),
{
    let w = slice_string(s, i, j);
    let wc = chars_of(w.as_str());
    if crate::text::chars_eq(&wc, &chars_of("true")) {
        Tok::True
    } else if crate::text::chars_eq(&wc, &chars_of("false")) {
        Tok::False
    } else if crate::text::chars_eq(&wc, &chars_of("forall")) {
        Tok::Forall
    } else if crate::text::chars_eq(&wc, &chars_of("exists")) {
        Tok::Exists
    } else if crate::text::chars_eq(&wc, &chars_of("where")) {
        Tok::Where
    } else if crate::text::chars_eq(&wc, &chars_of("and")) {
        Tok::And
    } else if crate::text::chars_eq(&wc, &chars_of("or")) {
        Tok::Or
    } else if crate::text::chars_eq(&wc, &chars_of("not")) {
        Tok::Not
    } else if crate::text::chars_eq(&wc, &chars_of("implies")) {
        Tok::Imp
    } else {
        Tok::Id(w)
    }
}

/// One lexing step at index `i`: the token produced there (if any) and how many
/// characters it consumes.
fn lex_step(s: &Vec<char>, i: usize) -> (r: (Option<Tok>, usize))
    requires
        i < s@.len(),
    ensures
        r.1 >= 1,
        i + r.1 <= s@.len(),
        lex_from(s@, i as int) == (match r.0 {
            Some(t) => seq![t@] + lex_from(s@, i + r.1),
            None => lex_from(s@, i + r.1),
        }),
{
    let c = s[i];
    proof {
        reveal_strlit("&&");
        reveal_strlit("||");
        reveal_strlit("=>");
        reveal_strlit("!=");
        reveal_strlit("==");
    }
    if is_ws_exec(c) {
        return (None, 1);
    }
    if occurs_at_exec(s, i, "&&") {
        return (Some(Tok::And), 2);
    }
    if occurs_at_exec(s, i, "||") {
        return (Some(Tok::Or), 2);
    }
    if occurs_at_exec(s, i, "=>") {
        return (Some(Tok::Imp), 2);
    }
    if occurs_at_exec(s, i, "!=") {
        return (Some(Tok::Ne), 2);
    }
    if occurs_at_exec(s, i, "==") {
        return (Some(Tok::Eq), 2);
    }
    if c == '!' {
        return (Some(Tok::Not), 1);
    }
    if c == '(' {
        return (Some(Tok::Lp), 1);
    }
    if c == ')' {
        return (Some(Tok::Rp), 1);
    }
    if c == ',' {
        return (Some(Tok::Comma), 1);
    }
    if c == ':' {
        return (Some(Tok::Colon), 1);
    }
    if !is_word_char_exec(c) {
        return (None, 1);
    }
    let len = s.len();
    let mut j = i + 1;
    while j < len && is_word_char_exec(s[j])
        invariant
            i < j <= s@.len(),
            len == s@.len(),
            word_end(s@, j as int) == word_end(s@, i as int + 1),
        decreases len - j,
    {
        j = j + 1;
    }
    proof {
        lemma_word_end_bounds(s@, i + 1);
        assert(word_end(s@, j as int) == j);
        assert(lex_from(s@, i as int) == lex_word(s@, i as int));
    }
    let t = word_token_exec(s, i, j);
    (Some(t), j - i)
}

/// The tokens of an ADRLogic expression.
pub fn lex(src: &str) -> (out: Vec<Tok>)
    ensures
        toks_view(out@) == lex_from(src@, 0),
{
    let s = chars_of(src);
    let mut out: Vec<Tok> = Vec::new();
    let mut i: usize = 0;
    while i < s.len()
        invariant
            i <= s@.len(),
            s@ == src@,
            toks_view(out@) + lex_from(s@, i as int) == lex_from(s@, 0),
        decreases s.len() - i,
    {
        let ghost before = out@;
        let (t, n) = lex_step(&s, i);
        match t {
            Some(tok) => {
                out.push(tok);
                proof {
                    assert(toks_view(out@) =~= toks_view(before) + seq![tok@]);
                    assert(toks_view(out@) + lex_from(s@, i + n) =~= toks_view(before) + lex_from(
                        s@,
                        i as int,
                    ));
                }
            },
            None => {},
        }
        i = i + n;
    }
    proof {
        assert(toks_view(out@) + lex_from(s@, i as int) =~= toks_view(out@));
    }
    out
}


// ---------------------------------------------------------------------------
// Parser (precedence: `=>` (right) < `||` < `&&` < `!`/quantifiers < atoms)
// ---------------------------------------------------------------------------

/// Token `k` stands at `p`.
pub open spec fn tok_is(t: Seq<STok>, p: int, k: STok) -> bool {
    0 <= p < t.len() && t[p] == k
}

/// An identifier stands at `p`.
pub open spec fn id_at(t: Seq<STok>, p: int) -> bool {
    0 <= p < t.len() && t[p] is Id
}

/// `imp := or ("=>" imp)?`: the expression parsed from `p` and the position after it.
pub open spec fn imp_at(t: Seq<STok>, p: int) -> Option<(SExpr, int)>
    decreases t.len() - p, 4int,
{
    if p < 0 || p > t.len() {
        None
    } else {
        match or_at(t, p) {
            None => None,
            Some((l, q)) => if p < q && tok_is(t, q, STok::Imp) {
                match imp_at(t, q + 1) {
                    Some((r, q2)) => Some((SExpr::Implies(Box::new(l), Box::new(r)), q2)),
                    None => None,
                }
            } else if p < q {
                Some((l, q))
            } else {
                None
            },
        }
    }
}

/// `or := and ("||" and)*`, left associative.
pub open spec fn or_at(t: Seq<STok>, p: int) -> Option<(SExpr, int)>
    decreases t.len() - p, 3int,
{
    if p < 0 || p > t.len() {
        None
    } else {
        match and_at(t, p) {
            None => None,
            Some((e, q)) => if p < q <= t.len() {
                or_rest(t, e, q)
            } else {
                None
            },
        }
    }
}

/// The rest of a disjunction whose left part `e` ends at `p`.
pub open spec fn or_rest(t: Seq<STok>, e: SExpr, p: int) -> Option<(SExpr, int)>
    decreases t.len() - p, 5int,
{
    if p < 0 || p > t.len() {
        None
    } else if tok_is(t, p, STok::Or) {
        match and_at(t, p + 1) {
            None => None,
            Some((r, q)) => if p + 1 < q <= t.len() {
                or_rest(t, SExpr::Or(Box::new(e), Box::new(r)), q)
            } else {
                None
            },
        }
    } else {
        Some((e, p))
    }
}

/// `and := unary ("&&" unary)*`, left associative.
pub open spec fn and_at(t: Seq<STok>, p: int) -> Option<(SExpr, int)>
    decreases t.len() - p, 2int,
{
    if p < 0 || p > t.len() {
        None
    } else {
        match unary_at(t, p) {
            None => None,
            Some((e, q)) => if p < q <= t.len() {
                and_rest(t, e, q)
            } else {
                None
            },
        }
    }
}

/// The rest of a conjunction whose left part `e` ends at `p`.
pub open spec fn and_rest(t: Seq<STok>, e: SExpr, p: int) -> Option<(SExpr, int)>
    decreases t.len() - p, 5int,
{
    if p < 0 || p > t.len() {
        None
    } else if tok_is(t, p, STok::And) {
        match unary_at(t, p + 1) {
            None => None,
            Some((r, q)) => if p + 1 < q <= t.len() {
                and_rest(t, SExpr::And(Box::new(e), Box::new(r)), q)
            } else {
                None
            },
        }
    } else {
        Some((e, p))
    }
}

/// `unary := "!" unary | ("forall" | "exists") id ":" id ("where" imp)? ":" imp | atom`
pub open spec fn unary_at(t: Seq<STok>, p: int) -> Option<(SExpr, int)>
    decreases t.len() - p, 1int,
{
    if p < 0 || p > t.len() {
        None
    } else if tok_is(t, p, STok::Not) {
        match unary_at(t, p + 1) {
            Some((x, q)) => Some((SExpr::Not(Box::new(x)), q)),
            None => None,
        }
    } else if tok_is(t, p, STok::Forall) || tok_is(t, p, STok::Exists) {
        if id_at(t, p + 1) && tok_is(t, p + 2, STok::Colon) && id_at(t, p + 3) {
            let var = t[p + 1]->Id_0;
            let ty = t[p + 3]->Id_0;
            let g: Option<(Option<Box<SExpr>>, int)> = if tok_is(t, p + 4, STok::Where) {
                match imp_at(t, p + 5) {
                    Some((x, q)) => if p + 5 < q {
                        Some((Some(Box::new(x)), q))
                    } else {
                        None
                    },
                    None => None,
                }
            } else {
                Some((None, p + 4))
            };
            match g {
                None => None,
                Some((guard, q)) => if tok_is(t, q, STok::Colon) {
                    match imp_at(t, q + 1) {
                        Some((body, q2)) => Some((
                            if tok_is(t, p, STok::Forall) {
                                SExpr::Forall { var, ty, guard, body: Box::new(body) }
                            } else {
                                SExpr::Exists { var, ty, guard, body: Box::new(body) }
                            },
                            q2,
                        )),
                        None => None,
                    }
                } else {
                    None
                },
            }
        } else {
            None
        }
    } else {
        atom_at(t, p)
    }
}

/// `atom := "(" imp ")" | "true" | "false" | id "(" ids ")" | id "==" id | id "!=" id | id`
pub open spec fn atom_at(t: Seq<STok>, p: int) -> Option<(SExpr, int)>
    decreases t.len() - p, 0int,
{
    if p < 0 || p > t.len() {
        None
    } else if tok_is(t, p, STok::Lp) {
        match imp_at(t, p + 1) {
            Some((e, q)) => if tok_is(t, q, STok::Rp) {
                Some((e, q + 1))
            } else {
                None
            },
            None => None,
        }
    } else if tok_is(t, p, STok::True) {
        Some((SExpr::Bool(true), p + 1))
    } else if tok_is(t, p, STok::False) {
        Some((SExpr::Bool(false), p + 1))
    } else if id_at(t, p) {
        let name = t[p]->Id_0;
        if tok_is(t, p + 1, STok::Lp) {
            if tok_is(t, p + 2, STok::Rp) {
                Some((SExpr::Call(name, Seq::empty()), p + 3))
            } else {
                match args_from(t, p + 2, Seq::empty()) {
                    Some((args, q)) => Some((SExpr::Call(name, args), q)),
                    None => None,
                }
            }
        } else if tok_is(t, p + 1, STok::Eq) {
            if id_at(t, p + 2) {
                Some((SExpr::Eq(name, t[p + 2]->Id_0), p + 3))
            } else {
                None
            }
        } else if tok_is(t, p + 1, STok::Ne) {
            if id_at(t, p + 2) {
                Some((SExpr::Ne(name, t[p + 2]->Id_0), p + 3))
            } else {
                None
            }
        } else {
            Some((SExpr::Name(name), p + 1))
        }
    } else {
        None
    }
}

/// The arguments of a call from `q` on, after those already read: identifiers
/// separated by `,` and closed by `)`.
pub open spec fn args_from(t: Seq<STok>, q: int, args: Seq<Seq<char>>) -> Option<(Seq<Seq<char>>, int)>
    decreases t.len() - q,
{
    if q < 0 || !id_at(t, q) {
        None
    } else {
        let a = args.push(t[q]->Id_0);
        if tok_is(t, q + 1, STok::Rp) {
            Some((a, q + 2))
        } else if tok_is(t, q + 1, STok::Comma) {
            args_from(t, q + 2, a)
        } else {
            None
        }
    }
}

/// The expression a rule's text holds: all its tokens parsed as one `imp`.
pub open spec fn expression_of(text: Seq<char>) -> Option<SExpr> {
    let t = lex_from(text, 0);
    match imp_at(t, 0) {
        Some((e, q)) => if q == t.len() {
            Some(e)
        } else {
            None
        },
        None => None,
    }
}

/// Where a parse error is reported.
pub struct ParseSite {
    pub path: String,
    pub line: usize,
}

pub open spec fn is_site_diag(e: Error, site: &ParseSite) -> bool {
    e matches Error::Diagnostic { path: p, line: l, column: c, .. } && p@ == site.path@ && l
        == site.line && c == 1
}

fn site_err(site: &ParseSite, message: &str) -> (r: Error)
    ensures
        is_site_diag(r, site),
{
    diag(site.path.as_str(), site.line, 1, message)
}

fn peek_is(toks: &Vec<Tok>, pos: usize, t: STok) -> (r: bool)
    requires
        !(t is Id),
    ensures
        r == (pos < toks@.len() && toks@[pos as int]@ == t),
        toks@.len() <= usize::MAX,
{
    if pos >= toks.len() {
        return false;
    }
    match (&toks[pos], t) {
        (Tok::True, STok::True) => true,
        (Tok::False, STok::False) => true,
        (Tok::Not, STok::Not) => true,
        (Tok::And, STok::And) => true,
        (Tok::Or, STok::Or) => true,
        (Tok::Imp, STok::Imp) => true,
        (Tok::Eq, STok::Eq) => true,
        (Tok::Ne, STok::Ne) => true,
        (Tok::Lp, STok::Lp) => true,
        (Tok::Rp, STok::Rp) => true,
        (Tok::Comma, STok::Comma) => true,
        (Tok::Colon, STok::Colon) => true,
        (Tok::Forall, STok::Forall) => true,
        (Tok::Exists, STok::Exists) => true,
        (Tok::Where, STok::Where) => true,
        _ => false,
    }
}

fn parse_id(toks: &Vec<Tok>, pos: usize, site: &ParseSite) -> (r: Result<(String, usize), Error>)
    ensures
        toks@.len() <= usize::MAX,
        r matches Ok((x, p)) ==> p == pos + 1 && pos < toks@.len() && toks@[pos as int]@ == STok::Id(
            x@,
        ),
        r matches Err(e) ==> is_site_diag(e, site),
        r is Err <==> !(pos < toks@.len() && toks@[pos as int] is Id),
{
    if pos < toks.len() {
        match &toks[pos] {
            Tok::Id(x) => {
                return Ok((x.clone(), pos + 1));
            },
            _ => {},
        }
    }
    Err(site_err(site, "expected identifier"))
}

fn expect(toks: &Vec<Tok>, pos: usize, t: STok, name: &str, site: &ParseSite) -> (r: Result<usize, Error>)
    requires
        !(t is Id),
    ensures
        r matches Ok(p) ==> p == pos + 1 && pos < toks@.len() && toks@[pos as int]@ == t,
        r matches Err(e) ==> is_site_diag(e, site),
        r is Ok <==> (pos < toks@.len() && toks@[pos as int]@ == t),
{
    if peek_is(toks, pos, t) {
        Ok(pos + 1)
    } else {
        let mut m = own("expected ");
        m.append(name);
        Err(site_err(site, m.as_str()))
    }
}

/// `imp := or ("=>" imp)?`
fn parse_imp(toks: &Vec<Tok>, pos: usize, site: &ParseSite) -> (r: Result<(Expr, usize), Error>)
    requires
        pos <= toks@.len(),
    ensures
        r matches Ok((_, p)) ==> pos < p <= toks@.len(),
        r is Ok <==> imp_at(toks_view(toks@), pos as int) is Some,
        r matches Ok((e, p)) ==> imp_at(toks_view(toks@), pos as int) == Some((e@, p as int)),
        r matches Err(e) ==> is_site_diag(e, site),
    decreases toks@.len() - pos, 4int,
{
    let (l, p) = match parse_or(toks, pos, site) {
        Ok(x) => x,
        Err(e) => return Err(e),
    };
    if peek_is(toks, p, STok::Imp) {
        match parse_imp(toks, p + 1, site) {
            Ok((r, q)) => Ok((Expr::Implies(Box::new(l), Box::new(r)), q)),
            Err(e) => Err(e),
        }
    } else {
        Ok((l, p))
    }
}

/// `or := and ("||" and)*`, left associative.
fn parse_or(toks: &Vec<Tok>, pos: usize, site: &ParseSite) -> (r: Result<(Expr, usize), Error>)
    requires
        pos <= toks@.len(),
    ensures
        r matches Ok((_, p)) ==> pos < p <= toks@.len(),
        r is Ok <==> or_at(toks_view(toks@), pos as int) is Some,
        r matches Ok((e, p)) ==> or_at(toks_view(toks@), pos as int) == Some((e@, p as int)),
        r matches Err(e) ==> is_site_diag(e, site),
    decreases toks@.len() - pos, 3int,
{
    let (mut e, mut p) = match parse_and(toks, pos, site) {
        Ok(x) => x,
        Err(err) => return Err(err),
    };
    while peek_is(toks, p, STok::Or)
        invariant
            pos < p <= toks@.len(),
            or_at(toks_view(toks@), pos as int) == or_rest(toks_view(toks@), e@, p as int),
        decreases toks@.len() - p,
    {
        match parse_and(toks, p + 1, site) {
            Ok((r, q)) => {
                e = Expr::Or(Box::new(e), Box::new(r));
                p = q;
            },
            Err(err) => return Err(err),
        }
    }
    Ok((e, p))
}

/// `and := unary ("&&" unary)*`, left associative.
fn parse_and(toks: &Vec<Tok>, pos: usize, site: &ParseSite) -> (r: Result<(Expr, usize), Error>)
    requires
        pos <= toks@.len(),
    ensures
        r matches Ok((_, p)) ==> pos < p <= toks@.len(),
        r is Ok <==> and_at(toks_view(toks@), pos as int) is Some,
        r matches Ok((e, p)) ==> and_at(toks_view(toks@), pos as int) == Some((e@, p as int)),
        r matches Err(e) ==> is_site_diag(e, site),
    decreases toks@.len() - pos, 2int,
{
    let (mut e, mut p) = match parse_unary(toks, pos, site) {
        Ok(x) => x,
        Err(err) => return Err(err),
    };
    while peek_is(toks, p, STok::And)
        invariant
            pos < p <= toks@.len(),
            and_at(toks_view(toks@), pos as int) == and_rest(toks_view(toks@), e@, p as int),
        decreases toks@.len() - p,
    {
        match parse_unary(toks, p + 1, site) {
            Ok((r, q)) => {
                e = Expr::And(Box::new(e), Box::new(r));
                p = q;
            },
            Err(err) => return Err(err),
        }
    }
    Ok((e, p))
}

/// `unary := "!" unary | ("forall" | "exists") id ":" id ("where" imp)? ":" imp | atom`
fn parse_unary(toks: &Vec<Tok>, pos: usize, site: &ParseSite) -> (r: Result<(Expr, usize), Error>)
    requires
        pos <= toks@.len(),
    ensures
        r matches Ok((_, p)) ==> pos < p <= toks@.len(),
        r is Ok <==> unary_at(toks_view(toks@), pos as int) is Some,
        r matches Ok((e, p)) ==> unary_at(toks_view(toks@), pos as int) == Some((e@, p as int)),
        r matches Err(e) ==> is_site_diag(e, site),
    decreases toks@.len() - pos, 1int,
{
    if peek_is(toks, pos, STok::Not) {
        return match parse_unary(toks, pos + 1, site) {
            Ok((x, q)) => Ok((Expr::Not(Box::new(x)), q)),
            Err(e) => Err(e),
        };
    }
    let universal = peek_is(toks, pos, STok::Forall);
    if universal || peek_is(toks, pos, STok::Exists) {
        let p = pos + 1;
        let (var, p) = match parse_id(toks, p, site) {
            Ok(x) => x,
            Err(e) => return Err(e),
        };
        let p = match expect(toks, p, STok::Colon, "Colon", site) {
            Ok(q) => q,
            Err(e) => return Err(e),
        };
        let (ty, p) = match parse_id(toks, p, site) {
            Ok(x) => x,
            Err(e) => return Err(e),
        };
        let (guard, p) = if peek_is(toks, p, STok::Where) {
            match parse_imp(toks, p + 1, site) {
                Ok((g, q)) => (Some(Box::new(g)), q),
                Err(e) => return Err(e),
            }
        } else {
            (None, p)
        };
        let p = match expect(toks, p, STok::Colon, "Colon", site) {
            Ok(q) => q,
            Err(e) => return Err(e),
        };
        let (body, p) = match parse_imp(toks, p, site) {
            Ok(x) => x,
            Err(e) => return Err(e),
        };
        return Ok((
            if universal {
                Expr::Forall { var, ty, guard, body: Box::new(body) }
            } else {
                Expr::Exists { var, ty, guard, body: Box::new(body) }
            },
            p,
        ));
    }
    parse_atom(toks, pos, site)
}

/// `atom := "(" imp ")" | "true" | "false" | id "(" ids ")" | id "==" id | id "!=" id | id`
fn parse_atom(toks: &Vec<Tok>, pos: usize, site: &ParseSite) -> (r: Result<(Expr, usize), Error>)
    requires
        pos <= toks@.len(),
    ensures
        r matches Ok((_, p)) ==> pos < p <= toks@.len(),
        r is Ok <==> atom_at(toks_view(toks@), pos as int) is Some,
        r matches Ok((e, p)) ==> atom_at(toks_view(toks@), pos as int) == Some((e@, p as int)),
        r matches Err(e) ==> is_site_diag(e, site),
    decreases toks@.len() - pos, 0int,
{
    if peek_is(toks, pos, STok::Lp) {
        let (e, p) = match parse_imp(toks, pos + 1, site) {
            Ok(x) => x,
            Err(err) => return Err(err),
        };
        return match expect(toks, p, STok::Rp, "Rp", site) {
            Ok(q) => Ok((e, q)),
            Err(err) => Err(err),
        };
    }
    if peek_is(toks, pos, STok::True) {
        return Ok((Expr::Bool(true), pos + 1));
    }
    if peek_is(toks, pos, STok::False) {
        return Ok((Expr::Bool(false), pos + 1));
    }
    let (name, p) = match parse_id(toks, pos, site) {
        Ok(x) => x,
        Err(e) => return Err(e),
    };
    if peek_is(toks, p, STok::Lp) {
        let mut args: Vec<String> = Vec::new();
        let mut q = p + 1;
        proof {
            assert(strs(args@) =~= Seq::<Seq<char>>::empty());
        }
        if peek_is(toks, q, STok::Rp) {
            return Ok((Expr::Call(name, args), q + 1));
        }
        loop
            invariant
                pos < q <= toks@.len(),
                p == pos + 1,
                id_at(toks_view(toks@), pos as int) && toks_view(toks@)[pos as int]->Id_0 == name@,
                tok_is(toks_view(toks@), pos + 1, STok::Lp),
                !tok_is(toks_view(toks@), pos as int, STok::Lp),
                !tok_is(toks_view(toks@), pos as int, STok::True),
                !tok_is(toks_view(toks@), pos as int, STok::False),
                atom_at(toks_view(toks@), pos as int) == match args_from(toks_view(toks@), q as int, strs(args@)) {
                    Some((a, q2)) => Some((SExpr::Call(name@, a), q2)),
                    None => None,
                },
            decreases toks@.len() - q,
        {
            let (a, q1) = match parse_id(toks, q, site) {
                Ok(x) => x,
                Err(e) => return Err(e),
            };
            let ghost a0 = strs(args@);
            args.push(a);
            proof {
                assert(strs(args@) =~= a0.push(a@));
            }
            if peek_is(toks, q1, STok::Rp) {
                return Ok((Expr::Call(name, args), q1 + 1));
            }
            q = match expect(toks, q1, STok::Comma, "Comma", site) {
                Ok(q2) => q2,
                Err(e) => return Err(e),
            };
        }
    }
    if peek_is(toks, p, STok::Eq) {
        return match parse_id(toks, p + 1, site) {
            Ok((b, q)) => Ok((Expr::Eq(name, b), q)),
            Err(e) => Err(e),
        };
    }
    if peek_is(toks, p, STok::Ne) {
        return match parse_id(toks, p + 1, site) {
            Ok((b, q)) => Ok((Expr::Ne(name, b), q)),
            Err(e) => Err(e),
        };
    }
    Ok((Expr::Name(name), p))
}

/// Parses a whole ADRLogic rule expression; every token must be consumed.
pub fn parse_expression(text: &str, path: &str, line: usize) -> (r: Result<Expr, Error>)
    ensures
        r is Ok <==> expression_of(text@) is Some,
        r matches Ok(e) ==> expression_of(text@) == Some(e@),
        r matches Err(e) ==> e matches Error::Diagnostic { path: p, line: l, column: c, .. } && p@
            == path@ && l == line && c == 1,
{
    let toks = lex(text);
    let site = ParseSite { path: own(path), line };
    match parse_imp(&toks, 0, &site) {
        Ok((e, p)) => {
            if p != toks.len() {
                Err(site_err(&site, "unexpected token in expression"))
            } else {
                Ok(e)
            }
        },
        Err(e) => Err(e),
    }
}

} // verus!

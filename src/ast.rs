use vstd::prelude::*;

verus! {

/// The type tag of an `in` statement: what the line read from the console
/// is turned into.
#[derive(Debug, Clone, Copy, PartialEq, Eq, Structural)]
pub enum InputKind {
    /// `int`: the trimmed line is parsed as a 32-bit integer.
    Int,
    /// `str`: the line is trimmed and kept as a string.
    Str,
    /// Any other tag: the line is kept as read.
    Other,
}

/// One parsed statement. Block statements own their bodies.
#[derive(Debug, PartialEq, Eq)]
pub enum Statement {
    /// Print a quoted literal as is, or the value of an expression.
    Print(String),
    /// `new var <name> = <expr>`: a mutable binding of raw expression text.
    VarDecl(String, String),
    /// `func <name> <p1,p2,...>` ... `endfunc`.
    FuncDecl(String, Vec<String>, Vec<Statement>),
    /// `call <name>`: a call with no arguments.
    Call(String),
    /// `loop do` ... `quit_loop`.
    Loop(Vec<Statement>),
    /// `while <cond...>` ... `}`.
    While(String, Vec<Statement>),
    /// `if <cond...>` ... `}`.
    If(String, Vec<Statement>),
    /// `in con|console <name> <type>`.
    Input(String, InputKind),
    /// `sleep <millis>`.
    Sleep(String),
    /// `quit_loop` as a statement of its own: leave the enclosing loop.
    QuitLoop,
}

/// The mathematical value of a [`Statement`]: text as character sequences,
/// bodies as sequences of values.
pub enum Stmt {
    Print(Seq<char>),
    VarDecl(Seq<char>, Seq<char>),
    FuncDecl(Seq<char>, Seq<Seq<char>>, Seq<Stmt>),
    Call(Seq<char>),
    Loop(Seq<Stmt>),
    While(Seq<char>, Seq<Stmt>),
    If(Seq<char>, Seq<Stmt>),
    Input(Seq<char>, InputKind),
    Sleep(Seq<char>),
    QuitLoop,
}

/// The views of a sequence of strings.
pub open spec fn strings_view(ss: Seq<String>) -> Seq<Seq<char>> {
    ss.map_values(|s: String| s@)
}

/// The value of a statement.
pub open spec fn stmt_view(s: Statement) -> Stmt
    decreases s,
{
    match s {
        Statement::Print(t) => Stmt::Print(t@),
        Statement::VarDecl(n, e) => Stmt::VarDecl(n@, e@),
        Statement::FuncDecl(n, ps, b) => Stmt::FuncDecl(n@, strings_view(ps@), stmts_view(b@)),
        Statement::Call(n) => Stmt::Call(n@),
        Statement::Loop(b) => Stmt::Loop(stmts_view(b@)),
        Statement::While(c, b) => Stmt::While(c@, stmts_view(b@)),
        Statement::If(c, b) => Stmt::If(c@, stmts_view(b@)),
        Statement::Input(n, k) => Stmt::Input(n@, k),
        Statement::Sleep(d) => Stmt::Sleep(d@),
        Statement::QuitLoop => Stmt::QuitLoop,
    }
}

/// The values of a sequence of statements, in order.
pub open spec fn stmts_view(ss: Seq<Statement>) -> Seq<Stmt>
    decreases ss,
{
    if ss.len() == 0 {
        Seq::empty()
    } else {
        stmts_view(ss.subrange(0, ss.len() - 1)).push(stmt_view(ss[ss.len() - 1]))
    }
}

impl View for Statement {
    type V = Stmt;

    open spec fn view(&self) -> Stmt {
        stmt_view(*self)
    }
}

/// `stmts_view` maps each statement to its value.
pub proof fn lemma_stmts_view(ss: Seq<Statement>)
    ensures
        stmts_view(ss).len() == ss.len(),
        forall|i: int| 0 <= i < ss.len() ==> #[trigger] stmts_view(ss)[i] == ss[i]@,
    decreases ss.len(),
{
    if ss.len() > 0 {
        lemma_stmts_view(ss.subrange(0, ss.len() - 1));
    }
}

} // verus!

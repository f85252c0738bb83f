use vstd::prelude::*;
use crate::ast::{InputKind, Statement, Stmt, lemma_stmts_view, stmts_view, strings_view};

verus! {

/// The text put before the first statement.
pub open spec fn prelude_text() -> Seq<char> {
    "use std::io;\nuse std::thread::sleep;\nuse std::time::Duration;\nfn main() {\n"@
}

/// Whether a print text is a quoted literal: it starts and ends with `"`.
pub open spec fn is_quoted(t: Seq<char>) -> bool {
    t.len() >= 1 && t[0] == '"' && t[t.len() - 1] == '"'
}

/// The lines that read a value from the console into `n`.
pub open spec fn input_text(n: Seq<char>, k: InputKind, ind: Seq<char>) -> Seq<char> {
    ind + "let mut "@ + n + " = String::new();\n"@
        + ind + "println!(\"Enter input: \");\n"@
        + ind + "io::stdin().read_line(&mut "@ + n + ").expect(\"Failed to read line\");\n"@
        + match k {
            InputKind::Int => ind + "let "@ + n + ": i32 = "@ + n
                + ".trim().parse().expect(\"Please type a number!\");\n"@,
            InputKind::Str => ind + "let "@ + n + " = "@ + n + ".trim().to_string();\n"@,
            InputKind::Other => ind + "let "@ + n + " = "@ + n + ";\n"@,
        }
}

/// The code of one statement in place, each line led by `ind`. A function
/// declaration leaves nothing in place: see [`functions_text`].
pub open spec fn stmt_text(st: Stmt, ind: Seq<char>) -> Seq<char>
    decreases st,
{
    match st {
        Stmt::Print(t) => if is_quoted(t) {
            ind + "println!("@ + t + ");\n"@
        } else {
            ind + "println!(\"{}\", "@ + t + ");\n"@
        },
        Stmt::VarDecl(n, e) => ind + "let mut "@ + n + " = "@ + e + ";\n"@,
        Stmt::FuncDecl(_, _, _) => Seq::empty(),
        Stmt::Call(n) => ind + n + "();\n"@,
        Stmt::Loop(b) => ind + "loop {\n"@ + block_text(b, ind + "  "@) + ind + "}\n"@,
        Stmt::While(c, b) => ind + "while "@ + c + " {\n"@ + block_text(b, ind + "  "@) + ind
            + "}\n"@,
        Stmt::If(c, b) => ind + "if "@ + c + " {\n"@ + block_text(b, ind + "  "@) + ind + "}\n"@,
        Stmt::Input(n, k) => input_text(n, k, ind),
        Stmt::Sleep(d) => ind + "sleep(Duration::from_millis("@ + d + "));\n"@,
        Stmt::QuitLoop => ind + "break;\n"@,
    }
}

/// The code of a sequence of statements in place, in order.
pub open spec fn block_text(ss: Seq<Stmt>, ind: Seq<char>) -> Seq<char>
    decreases ss,
{
    if ss.len() == 0 {
        Seq::empty()
    } else {
        block_text(ss.subrange(0, ss.len() - 1), ind) + stmt_text(ss[ss.len() - 1], ind)
    }
}

/// The parameter list of a routine: each name typed `i32`, separated by
/// `", "`.
pub open spec fn params_text(ps: Seq<Seq<char>>) -> Seq<char>
    decreases ps.len(),
{
    if ps.len() == 0 {
        Seq::empty()
    } else if ps.len() == 1 {
        ps[0] + ": i32"@
    } else {
        params_text(ps.drop_last()) + ", "@ + ps.last() + ": i32"@
    }
}

/// The routines that a statement declares, at any depth: each function
/// declaration becomes a routine of its own, followed by the routines its
/// body declares.
pub open spec fn stmt_functions(st: Stmt) -> Seq<char>
    decreases st,
{
    match st {
        Stmt::FuncDecl(n, ps, b) => "fn "@ + n + "("@ + params_text(ps) + ") {\n"@
            + block_text(b, "  "@) + "}\n"@ + functions_text(b),
        Stmt::Loop(b) => functions_text(b),
        Stmt::While(_, b) => functions_text(b),
        Stmt::If(_, b) => functions_text(b),
        _ => Seq::empty(),
    }
}

/// The routines that a sequence of statements declares, in order.
pub open spec fn functions_text(ss: Seq<Stmt>) -> Seq<char>
    decreases ss,
{
    if ss.len() == 0 {
        Seq::empty()
    } else {
        functions_text(ss.subrange(0, ss.len() - 1)) + stmt_functions(ss[ss.len() - 1])
    }
}

/// The whole program: the entry point holding every statement that is not a
/// function declaration, then the routines, in the order they were declared.
pub open spec fn program_text(ss: Seq<Stmt>) -> Seq<char> {
    prelude_text() + block_text(ss, "  "@) + "}\n"@ + functions_text(ss)
}

proof fn lemma_block_text_step(ss: Seq<Statement>, k: int, ind: Seq<char>)
    requires
        0 <= k < ss.len(),
    ensures
        block_text(stmts_view(ss).subrange(0, k + 1), ind) == block_text(
            stmts_view(ss).subrange(0, k),
            ind,
        ) + stmt_text(ss[k]@, ind),
        functions_text(stmts_view(ss).subrange(0, k + 1)) == functions_text(
            stmts_view(ss).subrange(0, k),
        ) + stmt_functions(ss[k]@),
{
    lemma_stmts_view(ss);
    let sv = stmts_view(ss);
    assert(sv.subrange(0, k + 1).subrange(0, k) =~= sv.subrange(0, k));
}

proof fn lemma_whole(ss: Seq<Statement>)
    ensures
        stmts_view(ss).subrange(0, ss.len() as int) == stmts_view(ss),
        block_text(stmts_view(ss).subrange(0, 0), "  "@) == Seq::<char>::empty(),
{
    lemma_stmts_view(ss);
    assert(stmts_view(ss).subrange(0, ss.len() as int) =~= stmts_view(ss));
}

/// Whether a print text is a quoted literal.
fn quoted(t: &String) -> (r: bool)
    ensures
        r == is_quoted(t@),
{
    let s = t.as_str();
    let n = s.unicode_len();
    n >= 1 && s.get_char(0) == '"' && s.get_char(n - 1) == '"'
}

/// Appends the lines that read a value from the console into `n`.
fn emit_input(n: &String, k: InputKind, ind: &String, out: &mut String)
    ensures
        final(out)@ == old(out)@ + input_text(n@, k, ind@),
{
    out.append(ind.as_str());
    out.append("let mut ");
    out.append(n.as_str());
    out.append(" = String::new();\n");
    out.append(ind.as_str());
    out.append("println!(\"Enter input: \");\n");
    out.append(ind.as_str());
    out.append("io::stdin().read_line(&mut ");
    out.append(n.as_str());
    out.append(").expect(\"Failed to read line\");\n");
    out.append(ind.as_str());
    match k {
        InputKind::Int => {
            out.append("let ");
            out.append(n.as_str());
            out.append(": i32 = ");
            out.append(n.as_str());
            out.append(".trim().parse().expect(\"Please type a number!\");\n");
        },
        InputKind::Str => {
            out.append("let ");
            out.append(n.as_str());
            out.append(" = ");
            out.append(n.as_str());
            out.append(".trim().to_string();\n");
        },
        InputKind::Other => {
            out.append("let ");
            out.append(n.as_str());
            out.append(" = ");
            out.append(n.as_str());
            out.append(";\n");
        },
    }
    assert(out@ =~= old(out)@ + input_text(n@, k, ind@));
}

/// Appends the code of `st` in place.
fn emit_statement(st: &Statement, ind: &String, out: &mut String)
    ensures
        final(out)@ == old(out)@ + stmt_text(st@, ind@),
    decreases st, 0nat,
{
    match st {
        Statement::Print(t) => {
            out.append(ind.as_str());
            if quoted(t) {
                out.append("println!(");
            } else {
                out.append("println!(\"{}\", ");
            }
            out.append(t.as_str());
            out.append(");\n");
            assert(out@ =~= old(out)@ + stmt_text(st@, ind@));
        },
        Statement::VarDecl(n, e) => {
            out.append(ind.as_str());
            out.append("let mut ");
            out.append(n.as_str());
            out.append(" = ");
            out.append(e.as_str());
            out.append(";\n");
            assert(out@ =~= old(out)@ + stmt_text(st@, ind@));
        },
        Statement::FuncDecl(_, _, _) => {
            assert(old(out)@ + Seq::<char>::empty() =~= old(out)@);
            assert(out@ =~= old(out)@ + stmt_text(st@, ind@));
        },
        Statement::Call(n) => {
            out.append(ind.as_str());
            out.append(n.as_str());
            out.append("();\n");
            assert(out@ =~= old(out)@ + stmt_text(st@, ind@));
        },
        Statement::Loop(b) => {
            out.append(ind.as_str());
            out.append("loop {\n");
            emit_nested(b, ind, out);
            out.append(ind.as_str());
            out.append("}\n");
            assert(out@ =~= old(out)@ + stmt_text(st@, ind@));
        },
        Statement::While(c, b) => {
            out.append(ind.as_str());
            out.append("while ");
            out.append(c.as_str());
            out.append(" {\n");
            emit_nested(b, ind, out);
            out.append(ind.as_str());
            out.append("}\n");
            assert(out@ =~= old(out)@ + stmt_text(st@, ind@));
        },
        Statement::If(c, b) => {
            out.append(ind.as_str());
            out.append("if ");
            out.append(c.as_str());
            out.append(" {\n");
            emit_nested(b, ind, out);
            out.append(ind.as_str());
            out.append("}\n");
            assert(out@ =~= old(out)@ + stmt_text(st@, ind@));
        },
        Statement::Input(n, k) => {
            emit_input(n, *k, ind, out);
        },
        Statement::Sleep(d) => {
            out.append(ind.as_str());
            out.append("sleep(Duration::from_millis(");
            out.append(d.as_str());
            out.append("));\n");
            assert(out@ =~= old(out)@ + stmt_text(st@, ind@));
        },
        Statement::QuitLoop => {
            out.append(ind.as_str());
            out.append("break;\n");
            assert(out@ =~= old(out)@ + stmt_text(st@, ind@));
        },
    }
}

/// Appends the code of a block body, one level deeper than `ind`.
fn emit_nested(b: &Vec<Statement>, ind: &String, out: &mut String)
    ensures
        final(out)@ == old(out)@ + block_text(stmts_view(b@), ind@ + "  "@),
    decreases b, 1nat,
{
    let mut inner = ind.clone();
    inner.append("  ");
    emit_statements(b, &inner, out);
}

/// Appends the code of each statement in place, in order.
fn emit_statements(ss: &Vec<Statement>, ind: &String, out: &mut String)
    ensures
        final(out)@ == old(out)@ + block_text(stmts_view(ss@), ind@),
    decreases ss, 0nat,
{
    let mut k: usize = 0;
    assert(old(out)@ + block_text(stmts_view(ss@).subrange(0, 0), ind@) =~= old(out)@);
    while k < ss.len()
        invariant
            k <= ss@.len(),
            out@ == old(out)@ + block_text(stmts_view(ss@).subrange(0, k as int), ind@),
        decreases ss@.len() - k,
    {
        proof {
            lemma_block_text_step(ss@, k as int, ind@);
        }
        emit_statement(&ss[k], ind, out);
        k = k + 1;
    }
    proof {
        lemma_whole(ss@);
    }
}

/// Appends the parameter list of a routine.
fn emit_params(ps: &Vec<String>, out: &mut String)
    ensures
        final(out)@ == old(out)@ + params_text(strings_view(ps@)),
{
    let ghost pv = strings_view(ps@);
    let mut k: usize = 0;
    assert(old(out)@ + params_text(pv.subrange(0, 0)) =~= old(out)@);
    while k < ps.len()
        invariant
            k <= ps@.len(),
            pv == strings_view(ps@),
            out@ == old(out)@ + params_text(pv.subrange(0, k as int)),
        decreases ps@.len() - k,
    {
        let ghost part = pv.subrange(0, k + 1);
        assert(part.drop_last() =~= pv.subrange(0, k as int));
        assert(part[k as int] == ps@[k as int]@);
        if k > 0 {
            out.append(", ");
        }
        out.append(ps[k].as_str());
        out.append(": i32");
        assert(out@ =~= old(out)@ + params_text(part));
        k = k + 1;
    }
    assert(pv.subrange(0, ps@.len() as int) =~= pv);
}

/// Appends the routines that `st` declares, at any depth.
fn emit_routines(st: &Statement, out: &mut String)
    ensures
        final(out)@ == old(out)@ + stmt_functions(st@),
    decreases st,
{
    match st {
        Statement::FuncDecl(n, ps, b) => {
            out.append("fn ");
            out.append(n.as_str());
            out.append("(");
            emit_params(ps, out);
            out.append(") {\n");
            let ind = String::from_str("  ");
            emit_statements(b, &ind, out);
            out.append("}\n");
            emit_all_routines(b, out);
        },
        Statement::Loop(b) => {
            emit_all_routines(b, out);
        },
        Statement::While(_, b) => {
            emit_all_routines(b, out);
        },
        Statement::If(_, b) => {
            emit_all_routines(b, out);
        },
        _ => {},
    }
    assert(out@ =~= old(out)@ + stmt_functions(st@));
}

/// Appends the routines that each statement declares, in order.
fn emit_all_routines(ss: &Vec<Statement>, out: &mut String)
    ensures
        final(out)@ == old(out)@ + functions_text(stmts_view(ss@)),
    decreases ss,
{
    let mut k: usize = 0;
    assert(old(out)@ + functions_text(stmts_view(ss@).subrange(0, 0)) =~= old(out)@);
    while k < ss.len()
        invariant
            k <= ss@.len(),
            out@ == old(out)@ + functions_text(stmts_view(ss@).subrange(0, k as int)),
        decreases ss@.len() - k,
    {
        proof {
            lemma_block_text_step(ss@, k as int, "  "@);
        }
        emit_routines(&ss[k], out);
        k = k + 1;
    }
    proof {
        lemma_whole(ss@);
    }
}

/// The Rust program for a sequence of statements: an entry point that runs
/// every statement that is not a function declaration, in order, followed by
/// one routine for each function declaration, at any depth, in the order they
/// were declared.
pub fn transpile(tokens: &[Statement]) -> (r: String)
    ensures
        r@ == program_text(stmts_view(tokens@)),
{
    let ghost sv = stmts_view(tokens@);
    let mut out = String::from_str(
        "use std::io;\nuse std::thread::sleep;\nuse std::time::Duration;\nfn main() {\n",
    );
    let ind = String::from_str("  ");
    let mut k: usize = 0;
    assert(out@ + block_text(sv.subrange(0, 0), ind@) =~= out@);
    while k < tokens.len()
        invariant
            k <= tokens@.len(),
            sv == stmts_view(tokens@),
            ind@ == "  "@,
            out@ == prelude_text() + block_text(sv.subrange(0, k as int), ind@),
        decreases tokens@.len() - k,
    {
        proof {
            lemma_block_text_step(tokens@, k as int, ind@);
        }
        emit_statement(&tokens[k], &ind, &mut out);
        k = k + 1;
    }
    proof {
        lemma_whole(tokens@);
    }
    out.append("}\n");
    let ghost main_part = out@;
    let mut k: usize = 0;
    assert(out@ + functions_text(sv.subrange(0, 0)) =~= out@);
    while k < tokens.len()
        invariant
            k <= tokens@.len(),
            sv == stmts_view(tokens@),
            main_part == prelude_text() + block_text(sv, "  "@) + "}\n"@,
            out@ == main_part + functions_text(sv.subrange(0, k as int)),
        decreases tokens@.len() - k,
    {
        proof {
            lemma_block_text_step(tokens@, k as int, "  "@);
        }
        emit_routines(&tokens[k], &mut out);
        k = k + 1;
    }
    out
}

/// Emission is a function of the statements alone: emitting the same
/// statements twice gives the same text.
pub proof fn lemma_emit_twice(first: Seq<Stmt>, second: Seq<Stmt>)
    requires
        first == second,
    ensures
        program_text(first) == program_text(second),
{
}

} // verus!

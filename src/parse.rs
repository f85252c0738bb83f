use vstd::prelude::*;
use crate::ast::{InputKind, Statement, Stmt, stmts_view, strings_view};
use crate::text::{
    chars_of, join_spans, join_words, expand_newlines, span_is, span_string, span_strings,
    spans_text, spans_within, split_lines, split_on, split_spans, trim, trim_span, word_spans, words,
};

verus! {

/// Why a line was skipped. Skipping a line never stops the parse.
#[derive(Debug, Clone, Copy, PartialEq, Eq, Structural)]
pub enum DiagnosticKind {
    /// `print` without the words `to terminal` after it.
    InvalidPrint,
    /// `new` not of the form `new var <name> = <expr...>`.
    InvalidVar,
    /// `func` without a name and a parameter list.
    InvalidFunc,
    /// `call` without a name.
    InvalidCall,
    /// `in` not of the form `in con|console <name> <type>`.
    InvalidInput,
    /// `loop` not followed by `do`.
    InvalidLoop,
    /// `sleep` without a duration.
    InvalidSleep,
    /// A first word that is no keyword.
    UnknownCommand,
}

impl DiagnosticKind {
    /// A sentence that tells the writer of the script what was expected.
    pub fn message(&self) -> &'static str {
        match self {
            DiagnosticKind::InvalidPrint => "Invalid print syntax. Use 'print to terminal <text>'",
            DiagnosticKind::InvalidVar => "Invalid var syntax. Use 'new var [name] = [value]'",
            DiagnosticKind::InvalidFunc => "Invalid func syntax. Use 'func [name] [param,param,...]'",
            DiagnosticKind::InvalidCall => "Invalid call syntax. Use 'call [name]'",
            DiagnosticKind::InvalidInput => "Invalid input syntax. Use 'in con [var] [type]' or 'in console [var] [type]'",
            DiagnosticKind::InvalidLoop => "Invalid loop syntax. Use 'loop do'",
            DiagnosticKind::InvalidSleep => "Invalid sleep syntax. Use 'sleep [milliseconds]'",
            DiagnosticKind::UnknownCommand => "Unknown command",
        }
    }
}

/// A skipped line: what was wrong with it, and its number (counting from 1).
#[derive(Debug, Clone, Copy, PartialEq, Eq, Structural)]
pub struct Diagnostic {
    pub kind: DiagnosticKind,
    pub line: usize,
}

/// The constructs that own a body closed by a line of its own.
#[derive(Debug, Clone, Copy, PartialEq, Eq, Structural)]
pub enum BlockKind {
    /// `func`, closed by `endfunc`.
    Func,
    /// `loop do`, closed by `quit_loop`.
    Loop,
    /// `while`, closed by `}`.
    While,
    /// `if`, closed by `}`.
    If,
}

/// The input ended inside a block: the block of this kind opened on this
/// line (counting from 1) has no closing line.
#[derive(Debug, Clone, Copy, PartialEq, Eq, Structural)]
pub struct UnterminatedBlock {
    pub kind: BlockKind,
    pub line: usize,
}

/// The statements of a script, and the lines that were skipped.
#[derive(Debug, PartialEq, Eq)]
pub struct Parsed {
    pub statements: Vec<Statement>,
    pub diagnostics: Vec<Diagnostic>,
}

/// The opening line of a block, with what it says.
pub enum Opener {
    Func(Seq<char>, Seq<Seq<char>>),
    Loop,
    While(Seq<char>),
    If(Seq<char>),
}

/// What one line is, by its words.
pub enum Line {
    Blank,
    Simple(Stmt),
    Skipped(DiagnosticKind),
    Opens(Opener),
}

/// The type tag of an `in` statement.
pub open spec fn input_kind(w: Seq<char>) -> InputKind {
    if w == "int"@ {
        InputKind::Int
    } else if w == "str"@ {
        InputKind::Str
    } else {
        InputKind::Other
    }
}

/// What a line with the words `ws` is. Only the first word decides which
/// construct it is; the condition of `while` and `if` is every word after
/// the keyword, a trailing `{` included.
pub open spec fn classify(ws: Seq<Seq<char>>) -> Line {
    if ws.len() == 0 {
        Line::Blank
    } else if ws[0] == "print"@ {
        if ws.len() > 2 && ws[1] == "to"@ && ws[2] == "terminal"@ {
            Line::Simple(Stmt::Print(expand_newlines(join_words(ws.subrange(3, ws.len() as int)))))
        } else {
            Line::Skipped(DiagnosticKind::InvalidPrint)
        }
    } else if ws[0] == "new"@ {
        if ws.len() > 4 && ws[1] == "var"@ && ws[3] == "="@ {
            Line::Simple(Stmt::VarDecl(ws[2], join_words(ws.subrange(4, ws.len() as int))))
        } else {
            Line::Skipped(DiagnosticKind::InvalidVar)
        }
    } else if ws[0] == "func"@ {
        if ws.len() > 2 {
            Line::Opens(Opener::Func(ws[1], split_on(ws[2], ',')))
        } else {
            Line::Skipped(DiagnosticKind::InvalidFunc)
        }
    } else if ws[0] == "call"@ {
        if ws.len() > 1 {
            Line::Simple(Stmt::Call(ws[1]))
        } else {
            Line::Skipped(DiagnosticKind::InvalidCall)
        }
    } else if ws[0] == "in"@ {
        if ws.len() > 3 && (ws[1] == "con"@ || ws[1] == "console"@) {
            Line::Simple(Stmt::Input(ws[2], input_kind(ws[3])))
        } else {
            Line::Skipped(DiagnosticKind::InvalidInput)
        }
    } else if ws[0] == "loop"@ {
        if ws.len() > 1 && ws[1] == "do"@ {
            Line::Opens(Opener::Loop)
        } else {
            Line::Skipped(DiagnosticKind::InvalidLoop)
        }
    } else if ws[0] == "while"@ {
        Line::Opens(Opener::While(join_words(ws.drop_first())))
    } else if ws[0] == "if"@ {
        Line::Opens(Opener::If(join_words(ws.drop_first())))
    } else if ws[0] == "sleep"@ {
        if ws.len() > 1 {
            Line::Simple(Stmt::Sleep(ws[1]))
        } else {
            Line::Skipped(DiagnosticKind::InvalidSleep)
        }
    } else if ws[0] == "quit_loop"@ {
        Line::Simple(Stmt::QuitLoop)
    } else {
        Line::Skipped(DiagnosticKind::UnknownCommand)
    }
}

/// The word that closes a block.
pub open spec fn closing_word(op: Opener) -> Seq<char> {
    match op {
        Opener::Func(_, _) => "endfunc"@,
        Opener::Loop => "quit_loop"@,
        Opener::While(_) => "}"@,
        Opener::If(_) => "}"@,
    }
}

/// The kind of block a line opens.
pub open spec fn block_kind(op: Opener) -> BlockKind {
    match op {
        Opener::Func(_, _) => BlockKind::Func,
        Opener::Loop => BlockKind::Loop,
        Opener::While(_) => BlockKind::While,
        Opener::If(_) => BlockKind::If,
    }
}

/// The statement a block becomes, given its body.
pub open spec fn close_block(op: Opener, body: Seq<Stmt>) -> Stmt {
    match op {
        Opener::Func(name, params) => Stmt::FuncDecl(name, params, body),
        Opener::Loop => Stmt::Loop(body),
        Opener::While(c) => Stmt::While(c, body),
        Opener::If(c) => Stmt::If(c, body),
    }
}

/// Whether the line closes a block with the word `kw`: trimmed, the line
/// is exactly `kw`.
pub open spec fn is_closing(line: Seq<char>, kw: Seq<char>) -> bool {
    trim(line) == kw
}

/// The index of the first line in `lines[from..hi]` that closes with `kw`,
/// or `hi` if there is none.
pub open spec fn find_closing(lines: Seq<Seq<char>>, from: int, hi: int, kw: Seq<char>) -> int
    decreases hi - from,
{
    if from >= hi {
        hi
    } else if is_closing(lines[from], kw) {
        from
    } else {
        find_closing(lines, from + 1, hi, kw)
    }
}

pub proof fn lemma_find_closing(lines: Seq<Seq<char>>, from: int, hi: int, kw: Seq<char>)
    requires
        from <= hi,
    ensures
        from <= find_closing(lines, from, hi, kw) <= hi,
    decreases hi - from,
{
    if from < hi && !is_closing(lines[from], kw) {
        lemma_find_closing(lines, from + 1, hi, kw);
    }
}

/// What a parse yields: the statements and the skipped lines.
pub type ParseOutcome = Result<(Seq<Stmt>, Seq<Diagnostic>), UnterminatedBlock>;

/// `r` with `s` and `d` put in front of what it holds.
pub open spec fn prepend(s: Seq<Stmt>, d: Seq<Diagnostic>, r: ParseOutcome) -> ParseOutcome {
    match r {
        Ok((x, y)) => Ok((s + x, d + y)),
        Err(e) => Err(e),
    }
}

/// The parse of `lines[lo..hi]`. Blank lines are passed over; a skipped line
/// leaves a diagnostic; a block's body runs up to the first line that closes
/// it, is parsed on its own, and the parse goes on after that closing line.
/// A block with no closing line fails the whole parse.
pub open spec fn parse_range(lines: Seq<Seq<char>>, lo: int, hi: int) -> ParseOutcome
    decreases hi - lo,
{
    if lo >= hi {
        Ok((Seq::empty(), Seq::empty()))
    } else {
        match classify(words(lines[lo])) {
            Line::Blank => parse_range(lines, lo + 1, hi),
            Line::Simple(st) => prepend(seq![st], Seq::empty(), parse_range(lines, lo + 1, hi)),
            Line::Skipped(k) => prepend(
                Seq::empty(),
                seq![Diagnostic { kind: k, line: (lo + 1) as usize }],
                parse_range(lines, lo + 1, hi),
            ),
            Line::Opens(op) => {
                let j = find_closing(lines, lo + 1, hi, closing_word(op));
                proof {
                    lemma_find_closing(lines, lo + 1, hi, closing_word(op));
                }
                if j >= hi {
                    Err(UnterminatedBlock { kind: block_kind(op), line: (lo + 1) as usize })
                } else {
                    match parse_range(lines, lo + 1, j) {
                        Err(e) => Err(e),
                        Ok((body, bd)) => prepend(
                            seq![close_block(op, body)],
                            bd,
                            parse_range(lines, j + 1, hi),
                        ),
                    }
                }
            },
        }
    }
}

/// The parse of a whole script.
pub open spec fn parse_script(text: Seq<char>) -> ParseOutcome {
    parse_range(split_lines(text), 0, split_lines(text).len() as int)
}

impl View for Parsed {
    type V = (Seq<Stmt>, Seq<Diagnostic>);

    open spec fn view(&self) -> (Seq<Stmt>, Seq<Diagnostic>) {
        (stmts_view(self.statements@), self.diagnostics@)
    }
}

/// The value of a parse result.
pub open spec fn outcome_of(r: Result<Parsed, UnterminatedBlock>) -> ParseOutcome {
    match r {
        Ok(p) => Ok(p@),
        Err(e) => Err(e),
    }
}

/// A script held as its characters and the spans of its lines.
struct Source<'a> {
    text: &'a str,
    chars: Vec<char>,
    lines: Vec<(usize, usize)>,
}

impl<'a> Source<'a> {
    spec fn wf(&self) -> bool {
        &&& self.text@ == self.chars@
        &&& spans_within(self.lines@, 0, self.chars@.len() as int)
    }

    spec fn line_texts(&self) -> Seq<Seq<char>> {
        spans_text(self.chars@, self.lines@)
    }
}

/// The opening line of a block, as values.
enum OpenLine {
    Func(String, Vec<String>),
    Loop,
    While(String),
    If(String),
}

spec fn open_view(o: OpenLine) -> Opener {
    match o {
        OpenLine::Func(n, ps) => Opener::Func(n@, strings_view(ps@)),
        OpenLine::Loop => Opener::Loop,
        OpenLine::While(c) => Opener::While(c@),
        OpenLine::If(c) => Opener::If(c@),
    }
}

/// What one line is, as values.
enum Recognized {
    Blank,
    Simple(Statement),
    Skipped(DiagnosticKind),
    Opens(OpenLine),
}

spec fn recognized_is(r: Recognized, l: Line) -> bool {
    match (r, l) {
        (Recognized::Blank, Line::Blank) => true,
        (Recognized::Simple(s), Line::Simple(t)) => s@ == t,
        (Recognized::Skipped(a), Line::Skipped(b)) => a == b,
        (Recognized::Opens(o), Line::Opens(p)) => open_view(o) == p,
        _ => false,
    }
}

/// Whether word `i` of the spans is `kw`.
fn word_is(src: &Source, ws: &Vec<(usize, usize)>, i: usize, kw: &str) -> (r: bool)
    requires
        src.wf(),
        i < ws@.len(),
        spans_within(ws@, 0, src.chars@.len() as int),
    ensures
        r == (spans_text(src.chars@, ws@)[i as int] == kw@),
{
    let (a, b) = ws[i];
    span_is(&src.chars, a, b, kw)
}

/// Word `i` of the spans as a string.
fn word_string(src: &Source, ws: &Vec<(usize, usize)>, i: usize) -> (r: String)
    requires
        src.wf(),
        i < ws@.len(),
        spans_within(ws@, 0, src.chars@.len() as int),
    ensures
        r@ == spans_text(src.chars@, ws@)[i as int],
{
    let (a, b) = ws[i];
    span_string(src.text, &src.chars, a, b)
}

/// Recognises line `k` by its words.
fn recognize(src: &Source, k: usize) -> (r: Recognized)
    requires
        src.wf(),
        k < src.lines@.len(),
    ensures
        recognized_is(r, classify(words(src.line_texts()[k as int]))),
{
    let (a, b) = src.lines[k];
    let ws = word_spans(&src.chars, a, b);
    let ghost w = spans_text(src.chars@, ws@);
    assert(src.line_texts()[k as int] == src.chars@.subrange(a as int, b as int));
    assert(spans_within(ws@, 0, src.chars@.len() as int));
    let n = ws.len();
    if n == 0 {
        return Recognized::Blank;
    }
    if word_is(src, &ws, 0, "print") {
        if n > 2 && word_is(src, &ws, 1, "to") && word_is(src, &ws, 2, "terminal") {
            let t = join_spans(src.text, &src.chars, &ws, 3, true);
            Recognized::Simple(Statement::Print(t))
        } else {
            Recognized::Skipped(DiagnosticKind::InvalidPrint)
        }
    } else if word_is(src, &ws, 0, "new") {
        if n > 4 && word_is(src, &ws, 1, "var") && word_is(src, &ws, 3, "=") {
            let name = word_string(src, &ws, 2);
            let e = join_spans(src.text, &src.chars, &ws, 4, false);
            Recognized::Simple(Statement::VarDecl(name, e))
        } else {
            Recognized::Skipped(DiagnosticKind::InvalidVar)
        }
    } else if word_is(src, &ws, 0, "func") {
        if n > 2 {
            let name = word_string(src, &ws, 1);
            let (pa, pb) = ws[2];
            let pspans = split_spans(&src.chars, pa, pb, ',');
            let params = span_strings(src.text, &src.chars, &pspans);
            Recognized::Opens(OpenLine::Func(name, params))
        } else {
            Recognized::Skipped(DiagnosticKind::InvalidFunc)
        }
    } else if word_is(src, &ws, 0, "call") {
        if n > 1 {
            Recognized::Simple(Statement::Call(word_string(src, &ws, 1)))
        } else {
            Recognized::Skipped(DiagnosticKind::InvalidCall)
        }
    } else if word_is(src, &ws, 0, "in") {
        if n > 3 && (word_is(src, &ws, 1, "con") || word_is(src, &ws, 1, "console")) {
            let name = word_string(src, &ws, 2);
            let kind = if word_is(src, &ws, 3, "int") {
                InputKind::Int
            } else if word_is(src, &ws, 3, "str") {
                InputKind::Str
            } else {
                InputKind::Other
            };
            Recognized::Simple(Statement::Input(name, kind))
        } else {
            Recognized::Skipped(DiagnosticKind::InvalidInput)
        }
    } else if word_is(src, &ws, 0, "loop") {
        if n > 1 && word_is(src, &ws, 1, "do") {
            Recognized::Opens(OpenLine::Loop)
        } else {
            Recognized::Skipped(DiagnosticKind::InvalidLoop)
        }
    } else if word_is(src, &ws, 0, "while") {
        assert(w.drop_first() =~= w.subrange(1, w.len() as int));
        Recognized::Opens(OpenLine::While(join_spans(src.text, &src.chars, &ws, 1, false)))
    } else if word_is(src, &ws, 0, "if") {
        assert(w.drop_first() =~= w.subrange(1, w.len() as int));
        Recognized::Opens(OpenLine::If(join_spans(src.text, &src.chars, &ws, 1, false)))
    } else if word_is(src, &ws, 0, "sleep") {
        if n > 1 {
            Recognized::Simple(Statement::Sleep(word_string(src, &ws, 1)))
        } else {
            Recognized::Skipped(DiagnosticKind::InvalidSleep)
        }
    } else if word_is(src, &ws, 0, "quit_loop") {
        Recognized::Simple(Statement::QuitLoop)
    } else {
        Recognized::Skipped(DiagnosticKind::UnknownCommand)
    }
}

/// Whether line `k` closes a block with the word `kw`.
fn line_closes(src: &Source, k: usize, kw: &str) -> (r: bool)
    requires
        src.wf(),
        k < src.lines@.len(),
    ensures
        r == is_closing(src.line_texts()[k as int], kw@),
{
    let (a, b) = src.lines[k];
    assert(src.line_texts()[k as int] == src.chars@.subrange(a as int, b as int));
    let (ta, tb) = trim_span(&src.chars, a, b);
    span_is(&src.chars, ta, tb, kw)
}

/// The index of the first line in `lines[from..hi]` that closes with `kw`,
/// or `hi`.
fn find_closing_line(src: &Source, from: usize, hi: usize, kw: &str) -> (r: usize)
    requires
        src.wf(),
        from <= hi <= src.lines@.len(),
    ensures
        r == find_closing(src.line_texts(), from as int, hi as int, kw@),
{
    let mut j: usize = from;
    while j < hi
        invariant
            src.wf(),
            from <= j <= hi <= src.lines@.len(),
            find_closing(src.line_texts(), from as int, hi as int, kw@) == find_closing(
                src.line_texts(),
                j as int,
                hi as int,
                kw@,
            ),
        decreases hi - j,
    {
        if line_closes(src, j, kw) {
            return j;
        }
        j = j + 1;
    }
    j
}

/// The word that closes the block a line opens.
fn closing_word_of(o: &OpenLine) -> (r: &'static str)
    ensures
        r@ == closing_word(open_view(*o)),
{
    match o {
        OpenLine::Func(_, _) => "endfunc",
        OpenLine::Loop => "quit_loop",
        OpenLine::While(_) => "}",
        OpenLine::If(_) => "}",
    }
}

/// The kind of block a line opens.
fn block_kind_of(o: &OpenLine) -> (r: BlockKind)
    ensures
        r == block_kind(open_view(*o)),
{
    match o {
        OpenLine::Func(_, _) => BlockKind::Func,
        OpenLine::Loop => BlockKind::Loop,
        OpenLine::While(_) => BlockKind::While,
        OpenLine::If(_) => BlockKind::If,
    }
}

/// The statement a block becomes, given its body.
fn close_open_line(o: OpenLine, body: Vec<Statement>) -> (r: Statement)
    ensures
        r@ == close_block(open_view(o), stmts_view(body@)),
{
    match o {
        OpenLine::Func(n, ps) => Statement::FuncDecl(n, ps, body),
        OpenLine::Loop => Statement::Loop(body),
        OpenLine::While(c) => Statement::While(c, body),
        OpenLine::If(c) => Statement::If(c, body),
    }
}

proof fn lemma_prepend_prepend(
    s1: Seq<Stmt>,
    d1: Seq<Diagnostic>,
    s2: Seq<Stmt>,
    d2: Seq<Diagnostic>,
    r: ParseOutcome,
)
    ensures
        prepend(s1, d1, prepend(s2, d2, r)) == prepend(s1 + s2, d1 + d2, r),
{
    if let Ok((x, y)) = r {
        assert(s1 + (s2 + x) =~= (s1 + s2) + x);
        assert(d1 + (d2 + y) =~= (d1 + d2) + y);
    }
}

proof fn lemma_stmts_view_push(ss: Seq<Statement>, s: Statement)
    ensures
        stmts_view(ss.push(s)) == stmts_view(ss) + seq![s@],
{
    assert(ss.push(s).subrange(0, ss.len() as int) =~= ss);
    assert(stmts_view(ss).push(s@) =~= stmts_view(ss) + seq![s@]);
}

/// Parses `lines[lo..hi]` as [`parse_range`] does.
fn parse_lines(src: &Source, lo: usize, hi: usize) -> (r: Result<Parsed, UnterminatedBlock>)
    requires
        src.wf(),
        lo <= hi <= src.lines@.len(),
    ensures
        outcome_of(r) == parse_range(src.line_texts(), lo as int, hi as int),
    decreases hi - lo,
{
    let ghost lt = src.line_texts();
    let mut statements: Vec<Statement> = Vec::new();
    let mut diagnostics: Vec<Diagnostic> = Vec::new();
    let mut i: usize = lo;
    assert(prepend(Seq::empty(), Seq::empty(), parse_range(lt, lo as int, hi as int))
        =~= parse_range(lt, lo as int, hi as int)) by {
        if let Ok((x, y)) = parse_range(lt, lo as int, hi as int) {
            assert(Seq::<Stmt>::empty() + x =~= x);
            assert(Seq::<Diagnostic>::empty() + y =~= y);
        }
    }
    while i < hi
        invariant
            src.wf(),
            lt == src.line_texts(),
            lo <= i <= hi <= src.lines@.len(),
            parse_range(lt, lo as int, hi as int) == prepend(
                stmts_view(statements@),
                diagnostics@,
                parse_range(lt, i as int, hi as int),
            ),
        decreases hi - i,
    {
        let ghost acc_s = stmts_view(statements@);
        let ghost acc_d = diagnostics@;
        match recognize(src, i) {
            Recognized::Blank => {
                i = i + 1;
            },
            Recognized::Simple(st) => {
                proof {
                    lemma_prepend_prepend(acc_s, acc_d, seq![st@], Seq::empty(),
                        parse_range(lt, i + 1, hi as int));
                    lemma_stmts_view_push(statements@, st);
                    assert(acc_d + Seq::<Diagnostic>::empty() =~= acc_d);
                }
                statements.push(st);
                i = i + 1;
            },
            Recognized::Skipped(kind) => {
                let d = Diagnostic { kind, line: i + 1 };
                proof {
                    lemma_prepend_prepend(acc_s, acc_d, Seq::empty(), seq![d],
                        parse_range(lt, i + 1, hi as int));
                    assert(acc_s + Seq::<Stmt>::empty() =~= acc_s);
                    assert(acc_d.push(d) =~= acc_d + seq![d]);
                }
                diagnostics.push(d);
                i = i + 1;
            },
            Recognized::Opens(o) => {
                let kw = closing_word_of(&o);
                let j = find_closing_line(src, i + 1, hi, kw);
                proof {
                    lemma_find_closing(lt, i + 1, hi as int, kw@);
                }
                if j >= hi {
                    return Err(UnterminatedBlock { kind: block_kind_of(&o), line: i + 1 });
                }
                let ghost op = open_view(o);
                match parse_lines(src, i + 1, j) {
                    Err(e) => {
                        return Err(e);
                    },
                    Ok(body) => {
                        let ghost bd = body.diagnostics@;
                        let Parsed { statements: body_statements, diagnostics: mut body_diagnostics } = body;
                        let st = close_open_line(o, body_statements);
                        proof {
                            lemma_prepend_prepend(acc_s, acc_d, seq![st@], bd,
                                parse_range(lt, j + 1, hi as int));
                            lemma_stmts_view_push(statements@, st);
                        }
                        statements.push(st);
                        diagnostics.append(&mut body_diagnostics);
                        i = j + 1;
                    },
                }
            },
        }
    }
    proof {
        assert(prepend(stmts_view(statements@), diagnostics@, Ok((Seq::empty(), Seq::empty())))
            == Ok::<(Seq<Stmt>, Seq<Diagnostic>), UnterminatedBlock>((stmts_view(statements@), diagnostics@))) by {
            assert(stmts_view(statements@) + Seq::<Stmt>::empty() =~= stmts_view(statements@));
            assert(diagnostics@ + Seq::<Diagnostic>::empty() =~= diagnostics@);
        }
    }
    Ok(Parsed { statements, diagnostics })
}

/// Parses a script: its statements in order, each block holding its body,
/// and a diagnostic for each line that was skipped; or the first block,
/// in the order of the lines, that has no closing line.
pub fn lex(input: &str) -> (r: Result<Parsed, UnterminatedBlock>)
    ensures
        outcome_of(r) == parse_script(input@),
{
    let chars = chars_of(input);
    let lines = split_spans(&chars, 0, chars.len(), '\n');
    assert(chars@.subrange(0, chars@.len() as int) =~= chars@);
    let src = Source { text: input, chars, lines };
    parse_lines(&src, 0, src.lines.len())
}

/// The number of lines of `lines[lo..hi]` at the top level that are
/// recognised: neither blank nor skipped, not inside a block's body, and not
/// the line that closes a block.
pub open spec fn top_level_count(lines: Seq<Seq<char>>, lo: int, hi: int) -> nat
    decreases hi - lo,
{
    if lo >= hi {
        0
    } else {
        match classify(words(lines[lo])) {
            Line::Blank => top_level_count(lines, lo + 1, hi),
            Line::Skipped(_) => top_level_count(lines, lo + 1, hi),
            Line::Simple(_) => 1 + top_level_count(lines, lo + 1, hi),
            Line::Opens(op) => {
                let j = find_closing(lines, lo + 1, hi, closing_word(op));
                proof {
                    lemma_find_closing(lines, lo + 1, hi, closing_word(op));
                }
                if j >= hi {
                    0
                } else {
                    1 + top_level_count(lines, j + 1, hi)
                }
            },
        }
    }
}

/// A parse yields one top-level statement for each recognised line at the
/// top level: the lines of a block's body do not add to that count.
pub proof fn lemma_top_level_count(lines: Seq<Seq<char>>, lo: int, hi: int)
    ensures
        parse_range(lines, lo, hi) matches Ok((s, _)) ==> s.len() == top_level_count(
            lines,
            lo,
            hi,
        ),
    decreases hi - lo,
{
    if lo < hi {
        match classify(words(lines[lo])) {
            Line::Opens(op) => {
                let j = find_closing(lines, lo + 1, hi, closing_word(op));
                lemma_find_closing(lines, lo + 1, hi, closing_word(op));
                if j < hi {
                    lemma_top_level_count(lines, j + 1, hi);
                }
            },
            _ => {
                lemma_top_level_count(lines, lo + 1, hi);
            },
        }
    }
}

/// A line whose first word is `quit_loop` is a statement of its own wherever
/// it stands, also outside any loop: the parse does not look at where it is.
pub proof fn lemma_quit_loop_anywhere(lines: Seq<Seq<char>>, lo: int, hi: int)
    requires
        0 <= lo < hi <= lines.len(),
        words(lines[lo]).len() > 0,
        words(lines[lo])[0] == "quit_loop"@,
    ensures
        parse_range(lines, lo, hi) == prepend(
            seq![Stmt::QuitLoop],
            Seq::empty(),
            parse_range(lines, lo + 1, hi),
        ),
{
    reveal_strlit("quit_loop");
    reveal_strlit("print");
    reveal_strlit("new");
    reveal_strlit("func");
    reveal_strlit("call");
    reveal_strlit("in");
    reveal_strlit("loop");
    reveal_strlit("while");
    reveal_strlit("if");
    reveal_strlit("sleep");
    let w = words(lines[lo])[0];
    assert(w.len() == 9);
    assert(w != "print"@ && w != "new"@ && w != "func"@ && w != "call"@ && w != "in"@);
    assert(w != "loop"@ && w != "while"@ && w != "if"@ && w != "sleep"@);
}

} // verus!

//! Compilation of contract source text into VM instructions.
//!
//! A program is a sequence of lines. A `#` starts a comment that runs to the
//! end of the line; blank lines are skipped. Each remaining line holds an
//! instruction name (case-insensitive) and at most one operand.

use vstd::prelude::*;
use crate::bytecode::Opcode;
use crate::text::{
    first_index, first_ws, has_ws, trim, upper_ascii, parse_unsigned, parse_i64_spec,
    lemma_first_ws_bounds, lemma_first_index_bounds, string_from_chars, find_ws, find_char,
    slice_chars, trim_chars, upper_chars, chars_eq_str, chars_of, parse_unsigned_chars,
    parse_i64_chars, dec_u64, dec_nat, is_ws, is_digit, all_digits, digits_value, unsigned_body, upper_char,
    trim_start, trim_end, lemma_first_index, lemma_first_ws, lemma_dec_nat_digits, lemma_dec_nat_value,
};

verus! {

/// Errors found while compiling contract text.
#[derive(Debug, Clone, PartialEq, Eq)]
pub enum CompileError {
    /// The instruction name is not known (reported upper-cased).
    UnknownOpcode { line: usize, opcode: String },
    /// The instruction needs an operand.
    MissingOperand { line: usize, opcode: &'static str },
    /// The operand is not a valid value for the instruction.
    InvalidOperand { line: usize, opcode: &'static str, value: String },
    /// The instruction takes no operand, or a single-token operand got more.
    UnexpectedOperand { line: usize, opcode: &'static str, value: String },
}

/// An instruction with its strings viewed as characters.
pub enum OpcodeV {
    LoadConst(i64),
    Load(Seq<char>),
    Store(Seq<char>),
    Add,
    Sub,
    Mul,
    Div,
    Eq,
    Gt,
    Jump(usize),
    JumpIfFalse(usize),
    Emit(Seq<char>),
    Halt,
}

/// A compile error with its strings viewed as characters.
pub enum CompileErrorV {
    UnknownOpcode { line: usize, opcode: Seq<char> },
    MissingOperand { line: usize, opcode: &'static str },
    InvalidOperand { line: usize, opcode: &'static str, value: Seq<char> },
    UnexpectedOperand { line: usize, opcode: &'static str, value: Seq<char> },
}

impl View for Opcode {
    type V = OpcodeV;

    open spec fn view(&self) -> OpcodeV {
        match self {
            Opcode::LoadConst(v) => OpcodeV::LoadConst(*v),
            Opcode::Load(k) => OpcodeV::Load(k@),
            Opcode::Store(k) => OpcodeV::Store(k@),
            Opcode::Add => OpcodeV::Add,
            Opcode::Sub => OpcodeV::Sub,
            Opcode::Mul => OpcodeV::Mul,
            Opcode::Div => OpcodeV::Div,
            Opcode::Eq => OpcodeV::Eq,
            Opcode::Gt => OpcodeV::Gt,
            Opcode::Jump(t) => OpcodeV::Jump(*t),
            Opcode::JumpIfFalse(t) => OpcodeV::JumpIfFalse(*t),
            Opcode::Emit(e) => OpcodeV::Emit(e@),
            Opcode::Halt => OpcodeV::Halt,
        }
    }
}

impl View for CompileError {
    type V = CompileErrorV;

    open spec fn view(&self) -> CompileErrorV {
        match self {
            CompileError::UnknownOpcode { line, opcode } => CompileErrorV::UnknownOpcode { line: *line, opcode: opcode@ },
            CompileError::MissingOperand { line, opcode } => CompileErrorV::MissingOperand { line: *line, opcode: *opcode },
            CompileError::InvalidOperand { line, opcode, value } => CompileErrorV::InvalidOperand { line: *line, opcode: *opcode, value: value@ },
            CompileError::UnexpectedOperand { line, opcode, value } => CompileErrorV::UnexpectedOperand { line: *line, opcode: *opcode, value: value@ },
        }
    }
}

/// The text of a compile error.
pub open spec fn compile_error_text(e: CompileErrorV) -> Seq<char> {
    match e {
        CompileErrorV::UnknownOpcode { line, opcode } => "未知指令: line="@ + dec_nat(line as nat) + ", opcode="@ + opcode,
        CompileErrorV::MissingOperand { line, opcode } => "缺少操作数: line="@ + dec_nat(line as nat) + ", opcode="@ + opcode@,
        CompileErrorV::InvalidOperand { line, opcode, value } => "操作数格式错误: line="@ + dec_nat(line as nat) + ", opcode="@ + opcode@ + ", value="@ + value,
        CompileErrorV::UnexpectedOperand { line, opcode, value } => "存在多余操作数: line="@ + dec_nat(line as nat) + ", opcode="@ + opcode@ + ", value="@ + value,
    }
}

impl CompileError {
    /// The error as text.
    pub fn message(&self) -> (r: String)
        ensures
            r@ == compile_error_text(self@),
    {
        let (head, line) = match self {
            CompileError::UnknownOpcode { line, .. } => ("未知指令: line=", *line),
            CompileError::MissingOperand { line, .. } => ("缺少操作数: line=", *line),
            CompileError::InvalidOperand { line, .. } => ("操作数格式错误: line=", *line),
            CompileError::UnexpectedOperand { line, .. } => ("存在多余操作数: line=", *line),
        };
        let mut s = String::from_str(head);
        let l = dec_u64(line as u64);
        s.append(l.as_str());
        s.append(", opcode=");
        match self {
            CompileError::UnknownOpcode { opcode, .. } => { s.append(opcode.as_str()); },
            CompileError::MissingOperand { opcode, .. } => { s.append(*opcode); },
            CompileError::InvalidOperand { opcode, value, .. } => {
                s.append(*opcode);
                s.append(", value=");
                s.append(value.as_str());
            },
            CompileError::UnexpectedOperand { opcode, value, .. } => {
                s.append(*opcode);
                s.append(", value=");
                s.append(value.as_str());
            },
        }
        s
    }
}

/// A line without the carriage return that precedes its newline.
pub open spec fn strip_cr(l: Seq<char>) -> Seq<char> {
    if l.len() > 0 && l.last() == '\r' { l.drop_last() } else { l }
}

/// The lines of a text, as `str::lines` yields them: split at `\n`, a `\r`
/// before the `\n` dropped, no empty line after a final `\n`.
pub open spec fn lines(s: Seq<char>) -> Seq<Seq<char>>
    decreases s.len(),
{
    if s.len() == 0 {
        Seq::empty()
    } else {
        let i = first_index(s, '\n');
        if i >= s.len() || i < 0 {
            seq![s]
        } else {
            seq![strip_cr(s.subrange(0, i))] + lines(s.subrange(i + 1, s.len() as int))
        }
    }
}

/// `"` ... `"` around an event name is dropped.
pub open spec fn unquote(s: Seq<char>) -> Seq<char> {
    if s.len() >= 2 && s[0] == '"' && s.last() == '"' { s.subrange(1, s.len() - 1) } else { s }
}

/// Checks an operand that must be a single token.
pub open spec fn single_token(line: usize, name: &'static str, operand: Seq<char>) -> Result<(), CompileErrorV> {
    if operand.len() == 0 {
        Err(CompileErrorV::MissingOperand { line, opcode: name })
    } else if has_ws(operand) {
        Err(CompileErrorV::UnexpectedOperand { line, opcode: name, value: operand })
    } else {
        Ok(())
    }
}

/// An instruction that takes no operand.
pub open spec fn bare(line: usize, name: &'static str, operand: Seq<char>, op: OpcodeV) -> Result<Option<OpcodeV>, CompileErrorV> {
    if operand.len() != 0 {
        Err(CompileErrorV::UnexpectedOperand { line, opcode: name, value: operand })
    } else {
        Ok(Some(op))
    }
}

/// A jump instruction with its target operand.
pub open spec fn jump_instr(line: usize, name: &'static str, operand: Seq<char>, conditional: bool) -> Result<Option<OpcodeV>, CompileErrorV> {
    match single_token(line, name, operand) {
        Err(e) => Err(e),
        Ok(_) => match parse_unsigned(operand, usize::MAX as int) {
            Some(t) => Ok(Some(if conditional { OpcodeV::JumpIfFalse(t as usize) } else { OpcodeV::Jump(t as usize) })),
            None => Err(CompileErrorV::InvalidOperand { line, opcode: name, value: operand }),
        },
    }
}

/// The instruction named `op` (upper-cased) with `operand`.
pub open spec fn instr(line: usize, op: Seq<char>, operand: Seq<char>) -> Result<Option<OpcodeV>, CompileErrorV> {
    if op == "LOAD_CONST"@ {
        match single_token(line, "LOAD_CONST", operand) {
            Err(e) => Err(e),
            Ok(_) => match parse_i64_spec(operand) {
                Some(v) => Ok(Some(OpcodeV::LoadConst(v as i64))),
                None => Err(CompileErrorV::InvalidOperand { line, opcode: "LOAD_CONST", value: operand }),
            },
        }
    } else if op == "LOAD"@ {
        match single_token(line, "LOAD", operand) {
            Err(e) => Err(e),
            Ok(_) => Ok(Some(OpcodeV::Load(operand))),
        }
    } else if op == "STORE"@ {
        match single_token(line, "STORE", operand) {
            Err(e) => Err(e),
            Ok(_) => Ok(Some(OpcodeV::Store(operand))),
        }
    } else if op == "JUMP"@ {
        jump_instr(line, "JUMP", operand, false)
    } else if op == "JUMP_IF_FALSE"@ {
        jump_instr(line, "JUMP_IF_FALSE", operand, true)
    } else if op == "EMIT"@ {
        if operand.len() == 0 {
            Err(CompileErrorV::MissingOperand { line, opcode: "EMIT" })
        } else {
            Ok(Some(OpcodeV::Emit(unquote(operand))))
        }
    } else if op == "HALT"@ {
        bare(line, "HALT", operand, OpcodeV::Halt)
    } else if op == "ADD"@ {
        bare(line, "ADD", operand, OpcodeV::Add)
    } else if op == "SUB"@ {
        bare(line, "SUB", operand, OpcodeV::Sub)
    } else if op == "MUL"@ {
        bare(line, "MUL", operand, OpcodeV::Mul)
    } else if op == "DIV"@ {
        bare(line, "DIV", operand, OpcodeV::Div)
    } else if op == "EQ"@ {
        bare(line, "EQ", operand, OpcodeV::Eq)
    } else if op == "GT"@ {
        bare(line, "GT", operand, OpcodeV::Gt)
    } else {
        Err(CompileErrorV::UnknownOpcode { line, opcode: op })
    }
}

/// The code of a line: the part before its first `#`, trimmed.
pub open spec fn line_code(raw: Seq<char>) -> Seq<char> {
    trim(raw.subrange(0, first_index(raw, '#')))
}

/// Compiles one line: nothing for a blank or comment line.
pub open spec fn compile_line(line: usize, raw: Seq<char>) -> Result<Option<OpcodeV>, CompileErrorV> {
    let code = line_code(raw);
    if code.len() == 0 {
        Ok(None)
    } else {
        let k = first_ws(code);
        let name = code.subrange(0, k);
        let operand = if k < code.len() { trim(code.subrange(k + 1, code.len() as int)) } else { Seq::empty() };
        instr(line, upper_ascii(name), operand)
    }
}

/// Prepends compiled instructions to the result of the remaining lines.
pub open spec fn prepend(p: Seq<OpcodeV>, r: Result<Seq<OpcodeV>, CompileErrorV>) -> Result<Seq<OpcodeV>, CompileErrorV> {
    match r {
        Ok(q) => Ok(p + q),
        Err(e) => Err(e),
    }
}

/// Compiles a sequence of lines numbered from `first`; the first error wins.
pub open spec fn compile_lines(ls: Seq<Seq<char>>, first: int) -> Result<Seq<OpcodeV>, CompileErrorV>
    decreases ls.len(),
{
    if ls.len() == 0 {
        Ok(Seq::empty())
    } else {
        match compile_line(first as usize, ls[0]) {
            Err(e) => Err(e),
            Ok(None) => compile_lines(ls.drop_first(), first + 1),
            Ok(Some(op)) => prepend(seq![op], compile_lines(ls.drop_first(), first + 1)),
        }
    }
}

/// What compiling `source` gives.
pub open spec fn compile_spec(source: Seq<char>) -> Result<Seq<OpcodeV>, CompileErrorV> {
    compile_lines(lines(source), 1)
}

/// The viewed form of a compile result.
pub open spec fn compile_result_view(r: Result<Vec<Opcode>, CompileError>) -> Result<Seq<OpcodeV>, CompileErrorV> {
    match r {
        Ok(p) => Ok(p@.map_values(|o: Opcode| o@)),
        Err(e) => Err(e@),
    }
}

/// Checks an operand that must be a single token.
fn check_single_token(line: usize, name: &'static str, operand: &Vec<char>) -> (r: Result<(), CompileError>)
    ensures
        match r {
            Ok(_) => single_token(line, name, operand@) is Ok,
            Err(e) => single_token(line, name, operand@) == Err::<(), CompileErrorV>(e@),
        },
{
    if operand.len() == 0 {
        return Err(CompileError::MissingOperand { line, opcode: name });
    }
    let k = find_ws(operand.as_slice());
    if k < operand.len() {
        proof { lemma_first_ws_bounds(operand@); }
        return Err(CompileError::UnexpectedOperand { line, opcode: name, value: string_from_chars(operand.as_slice()) });
    }
    proof { lemma_first_ws_bounds(operand@); }
    Ok(())
}

/// An instruction that takes no operand.
fn bare_instr(line: usize, name: &'static str, operand: &Vec<char>, op: Opcode) -> (r: Result<Option<Opcode>, CompileError>)
    ensures
        instr_view(r) == bare(line, name, operand@, op@),
{
    if operand.len() != 0 {
        Err(CompileError::UnexpectedOperand { line, opcode: name, value: string_from_chars(operand.as_slice()) })
    } else {
        Ok(Some(op))
    }
}

/// The viewed form of a one-line result.
pub open spec fn instr_view(r: Result<Option<Opcode>, CompileError>) -> Result<Option<OpcodeV>, CompileErrorV> {
    match r {
        Ok(Some(o)) => Ok(Some(o@)),
        Ok(None) => Ok(None),
        Err(e) => Err(e@),
    }
}

/// A jump instruction with its target operand.
fn jump(line: usize, name: &'static str, operand: &Vec<char>, conditional: bool) -> (r: Result<Option<Opcode>, CompileError>)
    ensures
        instr_view(r) == jump_instr(line, name, operand@, conditional),
{
    check_single_token(line, name, operand)?;
    match parse_unsigned_chars(operand.as_slice(), usize::MAX as u64) {
        Some(t) => {
            let t = t as usize;
            Ok(Some(if conditional { Opcode::JumpIfFalse(t) } else { Opcode::Jump(t) }))
        },
        None => Err(CompileError::InvalidOperand { line, opcode: name, value: string_from_chars(operand.as_slice()) }),
    }
}

/// Builds the instruction named `op` with `operand`.
fn build_instr(line: usize, op: &Vec<char>, operand: &Vec<char>) -> (r: Result<Option<Opcode>, CompileError>)
    ensures
        instr_view(r) == instr(line, op@, operand@),
{
    let o = op.as_slice();
    if chars_eq_str(o, "LOAD_CONST") {
        check_single_token(line, "LOAD_CONST", operand)?;
        match parse_i64_chars(operand.as_slice()) {
            Some(v) => Ok(Some(Opcode::LoadConst(v))),
            None => Err(CompileError::InvalidOperand { line, opcode: "LOAD_CONST", value: string_from_chars(operand.as_slice()) }),
        }
    } else if chars_eq_str(o, "LOAD") {
        check_single_token(line, "LOAD", operand)?;
        Ok(Some(Opcode::Load(string_from_chars(operand.as_slice()))))
    } else if chars_eq_str(o, "STORE") {
        check_single_token(line, "STORE", operand)?;
        Ok(Some(Opcode::Store(string_from_chars(operand.as_slice()))))
    } else if chars_eq_str(o, "JUMP") {
        jump(line, "JUMP", operand, false)
    } else if chars_eq_str(o, "JUMP_IF_FALSE") {
        jump(line, "JUMP_IF_FALSE", operand, true)
    } else if chars_eq_str(o, "EMIT") {
        if operand.len() == 0 {
            Err(CompileError::MissingOperand { line, opcode: "EMIT" })
        } else {
            let n = operand.len();
            if n >= 2 && operand[0] == '"' && operand[n - 1] == '"' {
                Ok(Some(Opcode::Emit(string_from_chars(slice_chars(operand.as_slice(), 1, n - 1).as_slice()))))
            } else {
                Ok(Some(Opcode::Emit(string_from_chars(operand.as_slice()))))
            }
        }
    } else if chars_eq_str(o, "HALT") {
        bare_instr(line, "HALT", operand, Opcode::Halt)
    } else if chars_eq_str(o, "ADD") {
        bare_instr(line, "ADD", operand, Opcode::Add)
    } else if chars_eq_str(o, "SUB") {
        bare_instr(line, "SUB", operand, Opcode::Sub)
    } else if chars_eq_str(o, "MUL") {
        bare_instr(line, "MUL", operand, Opcode::Mul)
    } else if chars_eq_str(o, "DIV") {
        bare_instr(line, "DIV", operand, Opcode::Div)
    } else if chars_eq_str(o, "EQ") {
        bare_instr(line, "EQ", operand, Opcode::Eq)
    } else if chars_eq_str(o, "GT") {
        bare_instr(line, "GT", operand, Opcode::Gt)
    } else {
        Err(CompileError::UnknownOpcode { line, opcode: string_from_chars(o) })
    }
}

/// Compiles one line of source.
fn compile_one_line(line: usize, raw: &[char]) -> (r: Result<Option<Opcode>, CompileError>)
    ensures
        instr_view(r) == compile_line(line, raw@),
{
    let hash = find_char(raw, '#');
    let before = slice_chars(raw, 0, hash);
    let code = trim_chars(before.as_slice());
    if code.len() == 0 {
        return Ok(None);
    }
    let k = find_ws(code.as_slice());
    let name = slice_chars(code.as_slice(), 0, k);
    let operand = if k < code.len() {
        let rest = slice_chars(code.as_slice(), k + 1, code.len());
        trim_chars(rest.as_slice())
    } else {
        Vec::new()
    };
    proof {
        if k >= code.len() { assert(operand@ =~= Seq::<char>::empty()); }
    }
    let op = upper_chars(name.as_slice());
    build_instr(line, &op, &operand)
}

/// Compiles contract source text into instructions.
pub fn compile(source: &str) -> (r: Result<Vec<Opcode>, CompileError>)
    ensures
        compile_result_view(r) == compile_spec(source@),
{
    let chars = chars_of(source);
    let n = chars.len();
    let mut program: Vec<Opcode> = Vec::new();
    let mut start: usize = 0;
    let mut line_no: usize = 1;
    proof {
        assert(chars@.subrange(0, n as int) =~= chars@);
        let all = compile_lines(lines(chars@), 1);
        match all {
            Ok(q) => { assert(Seq::<OpcodeV>::empty() + q =~= q); },
            Err(_) => {},
        }
        assert(program@.map_values(|o: Opcode| o@) =~= Seq::<OpcodeV>::empty());
    }
    while start < n
        invariant
            n == chars@.len(),
            chars@ == source@,
            start <= n,
            1 <= line_no <= start + 1,
            compile_spec(source@) == prepend(program@.map_values(|o: Opcode| o@), compile_lines(lines(chars@.subrange(start as int, n as int)), line_no as int)),
        decreases n - start,
    {
        let ghost rest_s = chars@.subrange(start as int, n as int);
        let ghost prog_v = program@.map_values(|o: Opcode| o@);
        let rest = slice_chars(chars.as_slice(), start, n);
        let i = find_char(rest.as_slice(), '\n');
        proof { lemma_first_index_bounds(rest@, '\n'); }
        let raw: Vec<char>;
        let next_start: usize;
        if i < rest.len() {
            let mut l = slice_chars(rest.as_slice(), 0, i);
            if l.len() > 0 && l[l.len() - 1] == '\r' {
                l.pop();
            }
            raw = l;
            next_start = start + i + 1;
            proof {
                assert(raw@ == strip_cr(rest@.subrange(0, i as int)));
                assert(chars@.subrange(next_start as int, n as int) =~= rest@.subrange(i + 1, rest@.len() as int));
            }
        } else {
            raw = rest;
            next_start = n;
            proof {
                assert(chars@.subrange(next_start as int, n as int) =~= Seq::<char>::empty());
                assert(lines(Seq::<char>::empty()) =~= Seq::<Seq<char>>::empty());
            }
        }
        let ghost ls = lines(rest_s);
        proof {
            assert(ls[0] == raw@);
            assert(ls.drop_first() =~= lines(chars@.subrange(next_start as int, n as int)));
        }
        match compile_one_line(line_no, raw.as_slice()) {
            Err(e) => {
                return Err(e);
            },
            Ok(None) => {},
            Ok(Some(op)) => {
                program.push(op);
                proof {
                    assert(program@.map_values(|o: Opcode| o@) =~= prog_v + seq![op@]);
                    let tail = compile_lines(lines(chars@.subrange(next_start as int, n as int)), line_no + 1);
                    match tail {
                        Ok(q) => { assert(prog_v + (seq![op@] + q) =~= (prog_v + seq![op@]) + q); },
                        Err(_) => {},
                    }
                }
            },
        }
        start = next_start;
        if start < n {
            line_no = line_no + 1;
        } else {
            proof {
                assert(chars@.subrange(start as int, n as int) =~= Seq::<char>::empty());
                assert(lines(Seq::<char>::empty()) =~= Seq::<Seq<char>>::empty());
                assert(compile_lines(Seq::<Seq<char>>::empty(), line_no as int) == compile_lines(Seq::<Seq<char>>::empty(), line_no + 1));
            }
        }
    }
    proof {
        assert(chars@.subrange(start as int, n as int) =~= Seq::<char>::empty());
        assert(lines(Seq::<char>::empty()) =~= Seq::<Seq<char>>::empty());
        assert(program@.map_values(|o: Opcode| o@) + Seq::<OpcodeV>::empty() =~= program@.map_values(|o: Opcode| o@));
    }
    Ok(program)
}

// ---------------------------------------------------------------- laws

/// Whether a character may stand in an instruction name as written here:
/// an upper-case letter or `_`.
pub open spec fn name_char(c: char) -> bool {
    ('A' <= c && c <= 'Z') || c == '_'
}

/// Trimming text that neither starts nor ends with whitespace leaves it.
proof fn lemma_trim_tight(s: Seq<char>)
    requires
        s.len() > 0,
        !is_ws(s[0]),
        !is_ws(s.last()),
    ensures
        trim(s) == s,
{
    assert(trim_start(s) == s);
    assert(trim_end(s) == s);
}

/// Whether text can stand as one word of a line: non-empty, with no
/// whitespace, no `#` and no line break.
pub open spec fn plain_word(w: Seq<char>) -> bool {
    &&& w.len() > 0
    &&& forall|i: int| 0 <= i < w.len() ==> !is_ws(#[trigger] w[i]) && w[i] != '#' && w[i] != '\n'
}

/// A one-line source made of a word, one space and an operand word
/// compiles to what the word, upper-cased, makes of that operand.
proof fn lemma_word_line(name: Seq<char>, tok: Seq<char>)
    requires
        plain_word(name),
        plain_word(tok),
    ensures
        compile_spec(name + seq![' '] + tok) == match instr(1, upper_ascii(name), tok) {
            Err(e) => Err(e),
            Ok(None) => Ok(Seq::<OpcodeV>::empty()),
            Ok(Some(op)) => Ok(seq![op]),
        },
{
    let src = name + seq![' '] + tok;
    let k = name.len() as int;
    assert forall|i: int| 0 <= i < src.len() implies src[i] != '\n' && src[i] != '#' by {
        if i < k {
            assert(src[i] == name[i]);
        } else if i > k {
            assert(src[i] == tok[i - k - 1]);
        }
    }
    lemma_first_index(src, '\n', src.len() as int);
    lemma_first_index(src, '#', src.len() as int);
    assert(lines(src) == seq![src]);
    assert(src.subrange(0, src.len() as int) =~= src);
    assert(src[0] == name[0]);
    assert(src.last() == tok[tok.len() - 1]);
    lemma_trim_tight(src);
    assert(line_code(src) == src);
    assert forall|j: int| 0 <= j < k implies !is_ws(src[j]) by {
        assert(src[j] == name[j]);
    }
    lemma_first_ws(src, k);
    assert(src.subrange(0, k) =~= name);
    assert(src.subrange(k + 1, src.len() as int) =~= tok);
    lemma_trim_tight(tok);
    let first = compile_line(1usize, src);
    assert(compile_lines(seq![src], 1) == match first {
        Err(e) => Err(e),
        Ok(None) => compile_lines(seq![src].drop_first(), 2),
        Ok(Some(op)) => prepend(seq![op], compile_lines(seq![src].drop_first(), 2)),
    });
    assert(seq![src].drop_first() =~= Seq::<Seq<char>>::empty());
    match first {
        Ok(Some(op)) => { assert(seq![op] + Seq::<OpcodeV>::empty() =~= seq![op]); },
        _ => {},
    }
}

/// A word that upper-cases to an instruction name (upper-case letters and
/// `_`) is a plain word.
proof fn lemma_name_word(name: Seq<char>, upper: Seq<char>)
    requires
        upper_ascii(name) == upper,
        upper.len() > 0,
        forall|i: int| 0 <= i < upper.len() ==> name_char(#[trigger] upper[i]),
    ensures
        plain_word(name),
{
    assert forall|i: int| 0 <= i < name.len() implies !is_ws(#[trigger] name[i]) && name[i] != '#' && name[i] != '\n' by {
        assert(upper_ascii(name)[i] == upper_char(name[i]));
        assert(name_char(upper[i]));
    }
}

/// The decimal digits of a number are a plain word.
proof fn lemma_digits_word(n: nat)
    ensures
        plain_word(dec_nat(n)),
{
    lemma_dec_nat_digits(n);
    let d = dec_nat(n);
    assert forall|i: int| 0 <= i < d.len() implies !is_ws(#[trigger] d[i]) && d[i] != '#' && d[i] != '\n' by {
        assert(is_digit(d[i]));
    }
}

/// The decimal digits of a number that fits in `usize` read as a jump target.
proof fn lemma_target(line: usize, name: &'static str, n: nat, conditional: bool)
    requires
        n <= usize::MAX,
    ensures
        jump_instr(line, name, dec_nat(n), conditional) == Ok::<Option<OpcodeV>, CompileErrorV>(Some(
            if conditional { OpcodeV::JumpIfFalse(n as usize) } else { OpcodeV::Jump(n as usize) })),
{
    let d = dec_nat(n);
    lemma_dec_nat_digits(n);
    lemma_dec_nat_value(n);
    assert(is_digit(d[0]));
    assert(unsigned_body(d) == d);
    assert(!has_ws(d)) by {
        if has_ws(d) {
            let i = choose|i: int| 0 <= i < d.len() && is_ws(#[trigger] d[i]);
            assert(is_digit(d[i]));
        }
    }
}

/// The instruction names this compiler knows, revealed.
proof fn lemma_names()
    ensures
        "JUMP_IF_FALSE"@.len() == 13,
        "JUMP"@ == seq!['J', 'U', 'M', 'P'],
        "LOAD"@ == seq!['L', 'O', 'A', 'D'],
        "STORE"@.len() == 5,
        "EMIT"@ == seq!['E', 'M', 'I', 'T'],
        "LOAD_CONST"@.len() == 10,
        forall|i: int| 0 <= i < "JUMP_IF_FALSE"@.len() ==> name_char(#[trigger] "JUMP_IF_FALSE"@[i]),
        forall|i: int| 0 <= i < "JUMP"@.len() ==> name_char(#[trigger] "JUMP"@[i]),
        forall|i: int| 0 <= i < "LOAD"@.len() ==> name_char(#[trigger] "LOAD"@[i]),
        forall|i: int| 0 <= i < "STORE"@.len() ==> name_char(#[trigger] "STORE"@[i]),
        forall|i: int| 0 <= i < "EMIT"@.len() ==> name_char(#[trigger] "EMIT"@[i]),
        forall|i: int| 0 <= i < "LOAD_CONST"@.len() ==> name_char(#[trigger] "LOAD_CONST"@[i]),
{
    reveal_strlit("JUMP_IF_FALSE");
    reveal_strlit("JUMP");
    reveal_strlit("LOAD");
    reveal_strlit("STORE");
    reveal_strlit("EMIT");
    reveal_strlit("LOAD_CONST");
}

/// Jumps compile to their own instruction, whatever the case of their name:
/// a line `JUMP_IF_FALSE n` gives a conditional jump to `n`, and a line
/// `JUMP n` an unconditional one, for every target `n` that fits in `usize`.
pub proof fn law_jump_lines_compile(name: Seq<char>, n: nat)
    requires
        n <= usize::MAX,
    ensures
        upper_ascii(name) == "JUMP_IF_FALSE"@ ==> compile_spec(name + seq![' '] + dec_nat(n))
            == Ok::<Seq<OpcodeV>, CompileErrorV>(seq![OpcodeV::JumpIfFalse(n as usize)]),
        upper_ascii(name) == "JUMP"@ ==> compile_spec(name + seq![' '] + dec_nat(n))
            == Ok::<Seq<OpcodeV>, CompileErrorV>(seq![OpcodeV::Jump(n as usize)]),
{
    lemma_names();
    lemma_digits_word(n);
    let cond = "JUMP_IF_FALSE"@;
    let plain = "JUMP"@;
    if upper_ascii(name) == cond {
        lemma_name_word(name, cond);
        lemma_word_line(name, dec_nat(n));
        lemma_target(1, "JUMP_IF_FALSE", n, true);
        assert(cond != "LOAD_CONST"@ && cond != "LOAD"@ && cond != "STORE"@ && cond != plain) by {
            assert(cond.len() != "LOAD_CONST"@.len() && cond.len() != "LOAD"@.len() && cond.len() != "STORE"@.len() && cond.len() != plain.len());
        }
        assert(instr(1, cond, dec_nat(n)) == jump_instr(1, "JUMP_IF_FALSE", dec_nat(n), true));
    }
    if upper_ascii(name) == plain {
        lemma_name_word(name, plain);
        lemma_word_line(name, dec_nat(n));
        lemma_target(1, "JUMP", n, false);
        assert(plain != "LOAD_CONST"@ && plain != "LOAD"@ && plain != "STORE"@) by {
            assert(plain.len() != "LOAD_CONST"@.len() && plain.len() != "STORE"@.len());
            assert(plain[0] != "LOAD"@[0]);
        }
        assert(instr(1, plain, dec_nat(n)) == jump_instr(1, "JUMP", dec_nat(n), false));
    }
}

/// Variables and events compile to their own instruction, whatever the case
/// of the name: a line `LOAD x` reads the variable `x`, `STORE x` writes it,
/// and `EMIT e` emits the event `e` (without surrounding quotes).
pub proof fn law_operand_lines_compile(name: Seq<char>, word: Seq<char>)
    requires
        plain_word(word),
    ensures
        upper_ascii(name) == "LOAD"@ ==> compile_spec(name + seq![' '] + word)
            == Ok::<Seq<OpcodeV>, CompileErrorV>(seq![OpcodeV::Load(word)]),
        upper_ascii(name) == "STORE"@ ==> compile_spec(name + seq![' '] + word)
            == Ok::<Seq<OpcodeV>, CompileErrorV>(seq![OpcodeV::Store(word)]),
        upper_ascii(name) == "EMIT"@ ==> compile_spec(name + seq![' '] + word)
            == Ok::<Seq<OpcodeV>, CompileErrorV>(seq![OpcodeV::Emit(unquote(word))]),
{
    lemma_names();
    assert(!has_ws(word)) by {
        if has_ws(word) {
            let i = choose|i: int| 0 <= i < word.len() && is_ws(#[trigger] word[i]);
        }
    }
    if upper_ascii(name) == "LOAD"@ {
        lemma_name_word(name, "LOAD"@);
        lemma_word_line(name, word);
        assert("LOAD"@ != "LOAD_CONST"@) by { assert("LOAD"@.len() != "LOAD_CONST"@.len()); }
    }
    if upper_ascii(name) == "STORE"@ {
        lemma_name_word(name, "STORE"@);
        lemma_word_line(name, word);
        assert("STORE"@ != "LOAD_CONST"@ && "STORE"@ != "LOAD"@) by {
            assert("STORE"@.len() != "LOAD_CONST"@.len() && "STORE"@.len() != "LOAD"@.len());
        }
    }
    if upper_ascii(name) == "EMIT"@ {
        lemma_name_word(name, "EMIT"@);
        lemma_word_line(name, word);
        reveal_strlit("JUMP_IF_FALSE");
        assert("EMIT"@ != "LOAD_CONST"@ && "EMIT"@ != "LOAD"@ && "EMIT"@ != "STORE"@ && "EMIT"@ != "JUMP"@
            && "EMIT"@ != "JUMP_IF_FALSE"@) by {
            assert("EMIT"@.len() != "LOAD_CONST"@.len() && "EMIT"@.len() != "STORE"@.len() && "EMIT"@.len() != "JUMP_IF_FALSE"@.len());
            assert("EMIT"@[0] != "LOAD"@[0] && "EMIT"@[0] != "JUMP"@[0]);
        }
    }
}

/// A line `LOAD_CONST n`, whatever the case of the name, pushes the
/// constant `n`, for every `n` from 0 to `i64::MAX`.
pub proof fn law_load_const_line_compiles(name: Seq<char>, n: nat)
    requires
        n <= i64::MAX,
    ensures
        upper_ascii(name) == "LOAD_CONST"@ ==> compile_spec(name + seq![' '] + dec_nat(n))
            == Ok::<Seq<OpcodeV>, CompileErrorV>(seq![OpcodeV::LoadConst(n as i64)]),
{
    lemma_names();
    if upper_ascii(name) == "LOAD_CONST"@ {
        lemma_digits_word(n);
        lemma_name_word(name, "LOAD_CONST"@);
        lemma_word_line(name, dec_nat(n));
        let d = dec_nat(n);
        lemma_dec_nat_digits(n);
        lemma_dec_nat_value(n);
        assert(is_digit(d[0]));
        assert(unsigned_body(d) == d);
        assert(!has_ws(d)) by {
            if has_ws(d) {
                let i = choose|i: int| 0 <= i < d.len() && is_ws(#[trigger] d[i]);
                assert(is_digit(d[i]));
            }
        }
    }
}

} // verus!

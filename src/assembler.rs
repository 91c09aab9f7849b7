//! Two-pass assembly of statements: labels, assignments, scopes and
//! instructions, into a word image.
use vstd::prelude::*;

use crate::asm_error::AsmError;
use crate::expr::{expression_at, spec_expr, SymbolLookup};
use crate::instruction::{lemma_decode_encode, spec_decode, spec_encode, ControlRegister, Gpr, Instruction, Word};
use crate::lexer::Token;
use crate::symbols::{lemma_view_wf, Symbol, SymbolTable, SymbolTableView};
use crate::util::str_eq;

verus! {

/// Symbol values as one pass sees them: in the first pass a symbol that is
/// not defined yet reads as 0, so that forward references can be placed.
pub struct PassSymbols<'a> {
    pub table: &'a SymbolTable,
}

pub open spec fn pass_value(t: SymbolTableView, name: Seq<char>) -> Option<i32> {
    match t.value_of(name) {
        Some(v) => Some(v),
        None => if t.first_pass {
            Some(0)
        } else {
            None
        },
    }
}

impl<'a> SymbolLookup for PassSymbols<'a> {
    open spec fn lookup_ready(&self) -> bool {
        self.table.wf()
    }

    open spec fn spec_lookup(&self, name: Seq<char>) -> Option<i32> {
        pass_value(self.table@, name)
    }

    fn lookup(&self, name: &str) -> (r: Option<i32>) {
        match self.table.lookup_symbol(name) {
            Some(sym) => Some(self.table.value_of_symbol(sym)),
            None => if self.table.is_first_pass() {
                Some(0)
            } else {
                None
            },
        }
    }
}

/// Register argument at `pos`.
pub open spec fn spec_gpr_arg(t: Seq<Token>, pos: int) -> Result<Gpr, AsmError> {
    if pos >= t.len() {
        Err(AsmError::UnexpectedEof)
    } else {
        match t[pos] {
            Token::Identifier(name) => match gpr_name(name@) {
                Some(i) => Ok(Gpr::from_spec(i)),
                None => Err(AsmError::InvalidGprName { position: pos as usize }),
            },
            _ => Err(AsmError::UnexpectedToken { position: pos as usize }),
        }
    }
}

/// Control register argument at `pos`, by exact name.
pub open spec fn spec_cr_arg(t: Seq<Token>, pos: int) -> Result<ControlRegister, AsmError> {
    if pos >= t.len() {
        Err(AsmError::UnexpectedEof)
    } else {
        match t[pos] {
            Token::Identifier(name) => match ControlRegister::spec_from_name(name@) {
                Some(c) => Ok(c),
                None => Err(AsmError::InvalidCrName { position: pos as usize }),
            },
            _ => Err(AsmError::UnexpectedToken { position: pos as usize }),
        }
    }
}

/// Immediate argument at `pos`: an expression with a value in `min..=max`.
pub open spec fn spec_imm<S: SymbolLookup>(t: Seq<Token>, pos: int, min: i32, max: i32, s: S) -> Result<(i32, int), AsmError> {
    match spec_expr(t, pos, 0, s) {
        Err(e) => Err(e),
        Ok((v, p)) => if min <= v <= max {
            Ok((v, p))
        } else {
            Err(AsmError::ValueOutOfRange { position: pos as usize })
        },
    }
}

/// A comma at `pos`; on success the position after it.
pub open spec fn spec_comma(t: Seq<Token>, pos: int) -> Result<int, AsmError> {
    if pos >= t.len() {
        Err(AsmError::UnexpectedEof)
    } else if t[pos] is Comma {
        Ok(pos + 1)
    } else {
        Err(AsmError::UnexpectedToken { position: pos as usize })
    }
}

/// Three register instruction of a mnemonic.
pub open spec fn rrr_of(name: Seq<char>, rd: Gpr, ra: Gpr, rb: Gpr) -> Instruction {
    if name == "add"@ {
        Instruction::Add { rd, ra, rb }
    } else if name == "sub"@ {
        Instruction::Sub { rd, ra, rb }
    } else if name == "and"@ {
        Instruction::And { rd, ra, rb }
    } else if name == "or"@ {
        Instruction::Or { rd, ra, rb }
    } else if name == "xor"@ {
        Instruction::Xor { rd, ra, rb }
    } else {
        Instruction::Upsample { rd, ra, rb }
    }
}

/// Two register instruction of a mnemonic: `jal`, `bz` or `bnz`.
pub open spec fn rr_of(name: Seq<char>, x: Gpr, address: Gpr) -> Instruction {
    if name == "jal"@ {
        Instruction::Jal { rd: x, address }
    } else if name == "bz"@ {
        Instruction::Bz { cond: x, address }
    } else {
        Instruction::Bnz { cond: x, address }
    }
}

/// The instruction spelt from `pos` on: a mnemonic, then its arguments
/// separated by commas, read left to right; the first argument that fails
/// gives the error. On success, the instruction and the position after it.
pub open spec fn spec_instruction<S: SymbolLookup>(t: Seq<Token>, pos: int, s: S) -> Result<(Instruction, int), AsmError> {
    let name = t[pos]->Identifier_0@;
    let a = pos + 1;
    if name == "add"@ || name == "sub"@ || name == "and"@ || name == "or"@ || name == "xor"@ || name == "upsample"@ {
        match spec_gpr_arg(t, a) { Err(e) => Err(e), Ok(rd) =>
        match spec_comma(t, a + 1) { Err(e) => Err(e), Ok(b) =>
        match spec_gpr_arg(t, b) { Err(e) => Err(e), Ok(ra) =>
        match spec_comma(t, b + 1) { Err(e) => Err(e), Ok(c) =>
        match spec_gpr_arg(t, c) { Err(e) => Err(e), Ok(rb) => Ok((rrr_of(name, rd, ra, rb), c + 1)) }}}}}
    } else if name == "addi"@ {
        match spec_gpr_arg(t, a) { Err(e) => Err(e), Ok(r) =>
        match spec_comma(t, a + 1) { Err(e) => Err(e), Ok(b) =>
        match spec_imm(t, b, -128i32, 127i32, s) { Err(e) => Err(e), Ok((v, p)) => Ok((Instruction::Addi { r, immediate: v as i8 }, p)) }}}
    } else if name == "ldi"@ {
        match spec_gpr_arg(t, a) { Err(e) => Err(e), Ok(r) =>
        match spec_comma(t, a + 1) { Err(e) => Err(e), Ok(b) =>
        match spec_imm(t, b, 0i32, 255i32, s) { Err(e) => Err(e), Ok((v, p)) => Ok((Instruction::Ldi { r, immediate: v as u8 }, p)) }}}
    } else if name == "ld"@ {
        match spec_gpr_arg(t, a) { Err(e) => Err(e), Ok(rd) =>
        match spec_comma(t, a + 1) { Err(e) => Err(e), Ok(b) =>
        match spec_gpr_arg(t, b) { Err(e) => Err(e), Ok(address) =>
        match spec_comma(t, b + 1) { Err(e) => Err(e), Ok(c) =>
        match spec_imm(t, c, -64i32, 63i32, s) { Err(e) => Err(e), Ok((v, p)) => Ok((Instruction::Ld { rd, address, offset: v as i8 }, p)) }}}}}
    } else if name == "st"@ {
        match spec_gpr_arg(t, a) { Err(e) => Err(e), Ok(address) =>
        match spec_comma(t, a + 1) { Err(e) => Err(e), Ok(b) =>
        match spec_imm(t, b, -64i32, 63i32, s) { Err(e) => Err(e), Ok((v, p)) =>
        match spec_comma(t, p) { Err(e) => Err(e), Ok(c) =>
        match spec_gpr_arg(t, c) { Err(e) => Err(e), Ok(rs) => Ok((Instruction::St { address, offset: v as i8, rs }, c + 1)) }}}}}
    } else if name == "ldcr"@ {
        match spec_gpr_arg(t, a) { Err(e) => Err(e), Ok(rd) =>
        match spec_comma(t, a + 1) { Err(e) => Err(e), Ok(b) =>
        match spec_cr_arg(t, b) { Err(e) => Err(e), Ok(cr) => Ok((Instruction::Ldcr { rd, cr }, b + 1)) }}}
    } else if name == "stcr"@ {
        match spec_cr_arg(t, a) { Err(e) => Err(e), Ok(cr) =>
        match spec_comma(t, a + 1) { Err(e) => Err(e), Ok(b) =>
        match spec_gpr_arg(t, b) { Err(e) => Err(e), Ok(rs) => Ok((Instruction::Stcr { cr, rs }, b + 1)) }}}
    } else if name == "jal"@ || name == "bz"@ || name == "bnz"@ {
        match spec_gpr_arg(t, a) { Err(e) => Err(e), Ok(x) =>
        match spec_comma(t, a + 1) { Err(e) => Err(e), Ok(b) =>
        match spec_gpr_arg(t, b) { Err(e) => Err(e), Ok(address) => Ok((rr_of(name, x, address), b + 1)) }}}
    } else if name == "break"@ {
        Ok((Instruction::Break, a))
    } else {
        Err(AsmError::UnexpectedInstructionMnemonic { position: pos as usize })
    }
}

/// General purpose register named `r0` to `r7`.
pub open spec fn gpr_name(s: Seq<char>) -> Option<u8> {
    if s.len() == 2 && s[0] == 'r' && '0' <= s[1] <= '7' {
        Some((s[1] as u32 - '0' as u32) as u8)
    } else {
        None
    }
}

/// A register argument at `pos`.
pub fn gpr_arg(t: &Vec<Token>, pos: usize) -> (r: Result<Gpr, AsmError>)
    requires
        pos <= t@.len(),
    ensures
        r == spec_gpr_arg(t@, pos as int),
        r is Ok ==> pos < t@.len() && r->Ok_0.wf(),
{
    if pos >= t.len() {
        return Err(AsmError::UnexpectedEof);
    }
    match &t[pos] {
        Token::Identifier(name) => {
            let s = name.as_str();
            if s.unicode_len() == 2 && s.get_char(0) == 'r' {
                let c = s.get_char(1);
                if '0' <= c && c <= '7' {
                    return Ok(Gpr::new((c as u32 - '0' as u32) as usize));
                }
            }
            Err(AsmError::InvalidGprName { position: pos })
        },
        _ => Err(AsmError::UnexpectedToken { position: pos }),
    }
}

/// A control register argument at `pos`, by its exact name.
pub fn cr_arg(t: &Vec<Token>, pos: usize) -> (r: Result<ControlRegister, AsmError>)
    requires
        pos <= t@.len(),
    ensures
        r == spec_cr_arg(t@, pos as int),
        r is Ok ==> pos < t@.len(),
{
    if pos >= t.len() {
        return Err(AsmError::UnexpectedEof);
    }
    match &t[pos] {
        Token::Identifier(name) => match ControlRegister::from_name(name.as_str()) {
            Some(c) => Ok(c),
            None => Err(AsmError::InvalidCrName { position: pos }),
        },
        _ => Err(AsmError::UnexpectedToken { position: pos }),
    }
}

/// An immediate argument at `pos`: an expression whose value lies in
/// `min..=max`, else `ValueOutOfRange` at `pos`.
pub fn immediate_arg<S: SymbolLookup>(t: &Vec<Token>, pos: usize, min: i32, max: i32, s: &S) -> (r: Result<(i32, usize), AsmError>)
    requires
        pos <= t@.len(),
        s.lookup_ready(),
    ensures
        match spec_imm(t@, pos as int, min, max, *s) {
            Err(e) => r == Err::<(i32, usize), AsmError>(e),
            Ok((v, p)) => r == Ok::<(i32, usize), AsmError>((v, p as usize)) && pos < p <= t@.len()
                && min <= v <= max,
        },
{
    let (v, p) = expression_at(t, pos, 0, s)?;
    if v < min || v > max {
        Err(AsmError::ValueOutOfRange { position: pos })
    } else {
        Ok((v, p))
    }
}

/// Requires a comma at `pos`.
fn comma(t: &Vec<Token>, pos: usize) -> (r: Result<usize, AsmError>)
    requires
        pos <= t@.len(),
    ensures
        match spec_comma(t@, pos as int) {
            Ok(p) => r == Ok::<usize, AsmError>(p as usize) && p == pos + 1 && pos < t@.len(),
            Err(e) => r == Err::<usize, AsmError>(e),
        },
{
    if pos >= t.len() {
        return Err(AsmError::UnexpectedEof);
    }
    match &t[pos] {
        Token::Comma => Ok(pos + 1),
        _ => Err(AsmError::UnexpectedToken { position: pos }),
    }
}

/// The mnemonic that the assembler writes for an instruction.
pub open spec fn mnemonic_of(i: Instruction) -> Seq<char> {
    match i {
        Instruction::Add { .. } => "add"@,
        Instruction::Sub { .. } => "sub"@,
        Instruction::And { .. } => "and"@,
        Instruction::Or { .. } => "or"@,
        Instruction::Xor { .. } => "xor"@,
        Instruction::Upsample { .. } => "upsample"@,
        Instruction::Addi { .. } => "addi"@,
        Instruction::Ldi { .. } => "ldi"@,
        Instruction::Ld { .. } => "ld"@,
        Instruction::St { .. } => "st"@,
        Instruction::Ldcr { .. } => "ldcr"@,
        Instruction::Stcr { .. } => "stcr"@,
        Instruction::Jal { .. } => "jal"@,
        Instruction::Bz { .. } => "bz"@,
        Instruction::Bnz { .. } => "bnz"@,
        Instruction::Break => "break"@,
    }
}

pub open spec fn is_mnemonic(s: Seq<char>) -> bool {
    s == "add"@ || s == "sub"@ || s == "and"@ || s == "or"@ || s == "xor"@ || s == "upsample"@
        || s == "addi"@ || s == "ldi"@ || s == "ld"@ || s == "st"@ || s == "ldcr"@ || s == "stcr"@
        || s == "jal"@ || s == "bz"@ || s == "bnz"@ || s == "break"@
}

/// The instruction that a mnemonic at `pos` and its comma separated
/// arguments after it spell, and the position after them. Immediates must
/// fit their fields; a name that is no mnemonic is
/// `UnexpectedInstructionMnemonic`.
pub fn instruction_at<S: SymbolLookup>(t: &Vec<Token>, pos: usize, s: &S) -> (r: Result<(Instruction, usize), AsmError>)
    requires
        pos < t@.len(),
        s.lookup_ready(),
        t@[pos as int] is Identifier,
    ensures
        match spec_instruction(t@, pos as int, *s) {
            Ok((i, p)) => r == Ok::<(Instruction, usize), AsmError>((i, p as usize)) && pos < p <= t@.len(),
            Err(e) => r == Err::<(Instruction, usize), AsmError>(e),
        },
        r matches Ok((i, p)) ==> i.wf() && pos < p <= t@.len() && mnemonic_of(i) == t@[pos as int]->Identifier_0@,
        !is_mnemonic(t@[pos as int]->Identifier_0@) ==> r == Err::<(Instruction, usize), AsmError>(
            AsmError::UnexpectedInstructionMnemonic { position: pos },
        ),
{
    let name = match &t[pos] {
        Token::Identifier(n) => n.as_str(),
        _ => {
            return Err(AsmError::UnexpectedToken { position: pos });
        },
    };
    let len = t.len();
    let a = pos + 1;
    if str_eq(name, "add") || str_eq(name, "sub") || str_eq(name, "and") || str_eq(name, "or")
        || str_eq(name, "xor") || str_eq(name, "upsample") {
        let rd = gpr_arg(t, a)?;
        let b = comma(t, a + 1)?;
        let ra = gpr_arg(t, b)?;
        let c = comma(t, b + 1)?;
        let rb = gpr_arg(t, c)?;
        let i = if str_eq(name, "add") {
            Instruction::Add { rd, ra, rb }
        } else if str_eq(name, "sub") {
            Instruction::Sub { rd, ra, rb }
        } else if str_eq(name, "and") {
            Instruction::And { rd, ra, rb }
        } else if str_eq(name, "or") {
            Instruction::Or { rd, ra, rb }
        } else if str_eq(name, "xor") {
            Instruction::Xor { rd, ra, rb }
        } else {
            Instruction::Upsample { rd, ra, rb }
        };
        Ok((i, c + 1))
    } else if str_eq(name, "addi") || str_eq(name, "ldi") {
        let r = gpr_arg(t, a)?;
        let b = comma(t, a + 1)?;
        if str_eq(name, "addi") {
            let (v, p) = immediate_arg(t, b, -128, 127, s)?;
            Ok((Instruction::Addi { r, immediate: v as i8 }, p))
        } else {
            let (v, p) = immediate_arg(t, b, 0, 255, s)?;
            Ok((Instruction::Ldi { r, immediate: v as u8 }, p))
        }
    } else if str_eq(name, "ld") {
        let rd = gpr_arg(t, a)?;
        let b = comma(t, a + 1)?;
        let address = gpr_arg(t, b)?;
        let c = comma(t, b + 1)?;
        let (v, p) = immediate_arg(t, c, -64, 63, s)?;
        Ok((Instruction::Ld { rd, address, offset: v as i8 }, p))
    } else if str_eq(name, "st") {
        let address = gpr_arg(t, a)?;
        let b = comma(t, a + 1)?;
        let (v, p) = immediate_arg(t, b, -64, 63, s)?;
        let c = comma(t, p)?;
        let rs = gpr_arg(t, c)?;
        Ok((Instruction::St { address, offset: v as i8, rs }, c + 1))
    } else if str_eq(name, "ldcr") {
        let rd = gpr_arg(t, a)?;
        let b = comma(t, a + 1)?;
        let cr = cr_arg(t, b)?;
        Ok((Instruction::Ldcr { rd, cr }, b + 1))
    } else if str_eq(name, "stcr") {
        let cr = cr_arg(t, a)?;
        let b = comma(t, a + 1)?;
        let rs = gpr_arg(t, b)?;
        Ok((Instruction::Stcr { cr, rs }, b + 1))
    } else if str_eq(name, "jal") || str_eq(name, "bz") || str_eq(name, "bnz") {
        let x = gpr_arg(t, a)?;
        let b = comma(t, a + 1)?;
        let address = gpr_arg(t, b)?;
        let i = if str_eq(name, "jal") {
            Instruction::Jal { rd: x, address }
        } else if str_eq(name, "bz") {
            Instruction::Bz { cond: x, address }
        } else {
            Instruction::Bnz { cond: x, address }
        };
        Ok((i, b + 1))
    } else if str_eq(name, "break") {
        Ok((Instruction::Break, a))
    } else {
        Err(AsmError::UnexpectedInstructionMnemonic { position: pos })
    }
}

/// Symbol values of a pass, given by the symbol table's view alone; a
/// value for stating what a pass computes, not for running.
pub struct ViewSymbols {
    pub view: Ghost<SymbolTableView>,
}

impl SymbolLookup for ViewSymbols {
    open spec fn lookup_ready(&self) -> bool {
        false
    }

    open spec fn spec_lookup(&self, name: Seq<char>) -> Option<i32> {
        pass_value(self.view@, name)
    }

    fn lookup(&self, name: &str) -> (r: Option<i32>) {
        None
    }
}

pub open spec fn view_symbols(v: SymbolTableView) -> ViewSymbols {
    ViewSymbols { view: Ghost(v) }
}

/// What a pass has built so far.
pub struct PassView {
    pub syms: SymbolTableView,
    pub pc: Word,
    pub words: Seq<Word>,
    pub errors: Seq<AsmError>,
}

/// Where a statement that ended at `pos` goes on: past a newline or
/// semicolon, at a `}` or the end; anything else is `UnexpectedToken`.
pub open spec fn spec_statement_end(t: Seq<Token>, pos: int) -> Result<int, AsmError> {
    if pos >= t.len() {
        Ok(pos)
    } else if t[pos] is Eol || t[pos] is Semicolon {
        Ok(pos + 1)
    } else if t[pos] is RBrace {
        Ok(pos)
    } else {
        Err(AsmError::UnexpectedToken { position: pos as usize })
    }
}

/// Where skipping a failed statement at `pos` stops: just past the next
/// newline or semicolon after it, or at the next `}` or the end.
pub open spec fn skip_from(t: Seq<Token>, q: int) -> int
    decreases t.len() - q,
{
    if q < 0 || q >= t.len() {
        q
    } else if t[q] is Eol || t[q] is Semicolon {
        q + 1
    } else if t[q] is RBrace {
        q
    } else {
        skip_from(t, q + 1)
    }
}

/// `name = expression` at `pos`.
pub open spec fn spec_assignment(t: Seq<Token>, pos: int, st: PassView) -> (PassView, Result<int, AsmError>) {
    match spec_expr(t, pos + 2, 0, view_symbols(st.syms)) {
        Err(e) => (st, Err(e)),
        Ok((v, p)) => {
            let (sy, r) = st.syms.define(t[pos]->Identifier_0@, Symbol::Free { value: v }, pos as usize);
            (PassView { syms: sy, ..st }, match r {
                Ok(_) => Ok(p),
                Err(e) => Err(e),
            })
        },
    }
}

/// A label at `pos`, with the scope it opens if a `{` follows.
pub open spec fn spec_label(t: Seq<Token>, pos: int, st: PassView) -> (PassView, Result<int, AsmError>)
    decreases t.len() - pos, 0nat,
{
    let name = t[pos]->Identifier_0@;
    if !(pos + 2 < t.len() && t[pos + 2] is LBrace) {
        let (sy, r) = st.syms.define(name, Symbol::Location { section: 0, offset: st.pc, attached_scope: None }, pos as usize);
        (PassView { syms: sy, ..st }, match r {
            Ok(_) => Ok(pos + 2),
            Err(e) => Err(e),
        })
    } else if st.syms.scopes.len() == usize::MAX {
        (st, Err(AsmError::UnexpectedToken { position: (pos + 2) as usize }))
    } else {
        let scope = (st.syms.opened + 1) as usize;
        let (sy, r) = st.syms.define(name, Symbol::Location { section: 0, offset: st.pc, attached_scope: Some(scope) }, pos as usize);
        let st1 = PassView { syms: sy, ..st };
        if r is Err {
            (st1, Err(r->Err_0))
        } else if sy.scopes.len() == usize::MAX {
            (st1, Err(AsmError::UnexpectedToken { position: (pos + 2) as usize }))
        } else {
            let (st2, p) = spec_scope_content(t, pos + 3, PassView { syms: sy.pushed(), ..st1 });
            if p >= t.len() {
                (st2, Err(AsmError::UnexpectedEof))
            } else if !(t[p] is RBrace) {
                (st2, Err(AsmError::UnexpectedToken { position: p as usize }))
            } else {
                (PassView { syms: st2.syms.popped(), ..st2 }, Ok(p + 1))
            }
        }
    }
}

/// One statement at `pos`.
pub open spec fn spec_statement(t: Seq<Token>, pos: int, st: PassView) -> (PassView, Result<int, AsmError>)
    decreases t.len() - pos, 1nat,
{
    if pos < 0 || pos >= t.len() {
        (st, Err(AsmError::UnexpectedEof))
    } else {
        match t[pos] {
            Token::LBrace => if st.syms.scopes.len() == usize::MAX {
                (st, Err(AsmError::UnexpectedToken { position: pos as usize }))
            } else {
                let (st2, q) = spec_scope_content(t, pos + 1, PassView { syms: st.syms.pushed(), ..st });
                if q >= t.len() {
                    (st2, Err(AsmError::UnexpectedEof))
                } else {
                    (PassView { syms: st2.syms.popped(), ..st2 }, Ok(q + 1))
                }
            },
            Token::Identifier(name) => if pos + 1 < t.len() && t[pos + 1] is Colon {
                spec_label(t, pos, st)
            } else if pos + 1 < t.len() && t[pos + 1] is Assign {
                let (st2, r) = spec_assignment(t, pos, st);
                match r {
                    Err(e) => (st2, Err(e)),
                    Ok(q) => (st2, spec_statement_end(t, q)),
                }
            } else if name@.len() > 0 && name@[0] == '.' {
                (st, Err(AsmError::UnexpectedInstructionMnemonic { position: pos as usize }))
            } else {
                match spec_instruction(t, pos, view_symbols(st.syms)) {
                    Err(e) => (st, Err(e)),
                    Ok((i, q)) => (
                        PassView { words: st.words.push(spec_encode(i)), pc: st.pc.wrapping_add(1), ..st },
                        spec_statement_end(t, q),
                    ),
                }
            },
            _ => (st, Err(AsmError::UnexpectedToken { position: pos as usize })),
        }
    }
}

/// Statements from `pos` up to a `}` or the end: each failing statement
/// adds its error and is skipped.
pub open spec fn spec_scope_content(t: Seq<Token>, pos: int, st: PassView) -> (PassView, int)
    decreases t.len() - pos, 2nat,
{
    if pos < 0 || pos >= t.len() {
        (st, pos)
    } else if t[pos] is RBrace {
        (st, pos)
    } else if t[pos] is Eol || t[pos] is Semicolon {
        spec_scope_content(t, pos + 1, st)
    } else {
        let (st2, r) = spec_statement(t, pos, st);
        match r {
            Ok(q) => if pos < q <= t.len() {
                spec_scope_content(t, q, st2)
            } else {
                (st2, pos)
            },
            Err(e) => {
                let q = skip_from(t, pos + 1);
                if pos < q <= t.len() {
                    spec_scope_content(t, q, PassView { errors: st2.errors.push(e), ..st2 })
                } else {
                    (st2, pos)
                }
            },
        }
    }
}

/// The rest of a pass from a `}` at `pos` that closes no scope.
pub open spec fn spec_file_rest(t: Seq<Token>, pos: int, st: PassView) -> PassView
    decreases t.len() - pos,
{
    if pos < 0 || pos >= t.len() {
        st
    } else {
        let (st2, q) = spec_scope_content(t, pos + 1, PassView { errors: st.errors.push(AsmError::UnexpectedToken { position: pos as usize }), ..st });
        if pos < q <= t.len() {
            spec_file_rest(t, q, st2)
        } else {
            st2
        }
    }
}

/// One pass over the whole input.
pub open spec fn spec_pass(t: Seq<Token>, st: PassView) -> PassView {
    let (st1, p) = spec_scope_content(t, 0, st);
    spec_file_rest(t, p, st1)
}

/// State of the second pass: the first pass's symbols, ready to be read
/// again, with nothing emitted.
pub open spec fn second_pass_start(first: PassView) -> PassView {
    PassView {
        syms: SymbolTableView { first_pass: false, opened: 0, active: seq![0usize], ..first.syms },
        pc: 0,
        words: seq![],
        errors: first.errors,
    }
}

/// The state at the start of an assembly job.
pub open spec fn initial_pass() -> PassView {
    PassView {
        syms: SymbolTableView {
            scopes: seq![Map::<Seq<char>, Symbol>::empty()],
            active: seq![0usize],
            opened: 0,
            first_pass: true,
            section_starts: seq![0u16],
        },
        pc: 0,
        words: seq![],
        errors: seq![],
    }
}

/// State of one assembly job: the symbol table, the address of the next
/// word, and the words emitted so far.
pub struct AssemblerState {
    symbols: SymbolTable,
    pc: Word,
    output: Vec<Word>,
    errors: Vec<AsmError>,
}

/// Whether the token at `pos` ends a statement: a newline, a semicolon, a
/// closing brace or the end of the input.
pub open spec fn ends_statement(t: Seq<Token>, pos: int) -> bool {
    pos >= t.len() || t[pos] is Eol || t[pos] is Semicolon || t[pos] is RBrace
}

impl AssemblerState {
    pub closed spec fn wf(&self) -> bool {
        &&& self.symbols.wf()
        &&& forall|k: int| 0 <= k < self.output@.len() ==> spec_decode(#[trigger] self.output@[k]) is Ok
    }

    pub closed spec fn symbols_view(&self) -> SymbolTableView {
        self.symbols@
    }

    /// How expressions of this pass see the symbols.
    pub closed spec fn pass_symbols(&self) -> PassSymbols<'_> {
        PassSymbols { table: &self.symbols }
    }

    /// Address of the next word.
    pub closed spec fn pc_view(&self) -> Word {
        self.pc
    }

    /// Errors of failed statements so far.
    pub closed spec fn error_list(&self) -> Seq<AsmError> {
        self.errors@
    }

    /// Words emitted so far.
    pub closed spec fn words(&self) -> Seq<Word> {
        self.output@
    }

    /// A job at the start of its first pass.
    pub fn new() -> (r: AssemblerState)
        ensures
            r.wf(),
            r.symbols_view().first_pass,
            r.words().len() == 0,
            r.error_list().len() == 0,
            r.pass_view() == initial_pass(),
    {
        AssemblerState { symbols: SymbolTable::new(), pc: 0, output: Vec::new(), errors: Vec::new() }
    }

    pub fn symbols(&self) -> (r: &SymbolTable)
        ensures
            r@ == self.symbols_view(),
    {
        &self.symbols
    }

    pub fn output(&self) -> (r: &Vec<Word>)
        ensures
            r@ == self.words(),
    {
        &self.output
    }

    /// Start the second pass: the address goes back to 0 and the words of
    /// the first pass are dropped.
    pub closed spec fn pass_view(&self) -> PassView {
        PassView { syms: self.symbols@, pc: self.pc, words: self.output@, errors: self.errors@ }
    }

    /// Start the second pass: the address goes back to 0, the words of the
    /// first pass are dropped, and scopes are opened again from the root.
    pub fn start_second_pass(&mut self)
        requires
            old(self).wf(),
        ensures
            final(self).wf(),
            final(self).pass_view() == second_pass_start(old(self).pass_view()),
            !final(self).symbols_view().first_pass,
            final(self).words().len() == 0,
            final(self).error_list() == old(self).error_list(),
    {
        self.symbols.start_second_pass();
        self.pc = 0;
        self.output = Vec::new();
        assert(self.symbols@ == (SymbolTableView { first_pass: false, opened: 0, active: seq![0usize], ..old(self).symbols@ }));
        assert(self.output@ =~= Seq::<Word>::empty());
    }

    fn emit(&mut self, i: &Instruction)
        requires
            old(self).wf(),
            i.wf(),
        ensures
            final(self).wf(),
            final(self).pass_view() == (PassView {
                words: old(self).pass_view().words.push(spec_encode(*i)),
                pc: old(self).pass_view().pc.wrapping_add(1),
                ..old(self).pass_view()
            }),
    {
        let w = i.encode();
        proof {
            lemma_decode_encode(*i);
        }
        self.output.push(w);
        self.pc = self.pc.wrapping_add(1);
        proof {
            assert forall|k: int| 0 <= k < self.output@.len() implies spec_decode(#[trigger] self.output@[k]) is Ok by {
                if k < old(self).output@.len() {
                    assert(self.output@[k] == old(self).output@[k]);
                }
            }
        }
    }

    proof fn lemma_lookups_agree(&self, t: Seq<Token>)
        requires
            self.symbols.wf(),
        ensures
            forall|p: int, m: nat| #[trigger] spec_expr(t, p, m, PassSymbols { table: &self.symbols }) == spec_expr(t, p, m, view_symbols(self.symbols@)),
            forall|p: int| #[trigger] spec_instruction(t, p, PassSymbols { table: &self.symbols }) == spec_instruction(t, p, view_symbols(self.symbols@)),
    {
        let s1 = PassSymbols { table: &self.symbols };
        let s2 = view_symbols(self.symbols@);
        assert forall|n: Seq<char>| #[trigger] s1.spec_lookup(n) == s2.spec_lookup(n) by {}
        assert forall|p: int, m: nat| #[trigger] spec_expr(t, p, m, s1) == spec_expr(t, p, m, s2) by {
            crate::expr::lemma_expr_congruent(t, p, m, s1, s2);
        }
        assert forall|p: int| #[trigger] spec_instruction(t, p, s1) == spec_instruction(t, p, s2) by {
            assert forall|q: int, lo: i32, hi: i32| #[trigger] spec_imm(t, q, lo, hi, s1) == spec_imm(t, q, lo, hi, s2) by {
                assert(spec_expr(t, q, 0, s1) == spec_expr(t, q, 0, s2));
            }
        }
    }

    /// `name = expression` at `pos`: defines a free symbol with the
    /// expression's value, as `spec_assignment` says.
    pub fn assignment(&mut self, t: &Vec<Token>, pos: usize) -> (r: Result<usize, AsmError>)
        requires
            old(self).wf(),
            pos + 1 < t@.len(),
            t@[pos as int] is Identifier,
            t@[pos + 1] is Assign,
        ensures
            final(self).wf(),
            ({
                let (st, sr) = spec_assignment(t@, pos as int, old(self).pass_view());
                &&& final(self).pass_view() == st
                &&& match sr {
                    Ok(p) => r == Ok::<usize, AsmError>(p as usize) && pos + 2 < p <= t@.len(),
                    Err(e) => r == Err::<usize, AsmError>(e),
                }
            }),
    {
        let name = match &t[pos] {
            Token::Identifier(n) => n,
            _ => {
                return Err(AsmError::UnexpectedToken { position: pos });
            },
        };
        let len = t.len();
        proof {
            self.lemma_lookups_agree(t@);
            lemma_view_wf(&self.symbols);
        }
        let (value, p) = {
            let lookup = PassSymbols { table: &self.symbols };
            expression_at(t, pos + 2, 0, &lookup)?
        };
        self.symbols.define_symbol(name.as_str(), Symbol::Free { value }, pos)?;
        Ok(p)
    }
}

impl AssemblerState {
    /// A label at `pos`, as `spec_label` says: `name:` defines a location
    /// symbol at the current address; `name: {` also opens a scope attached
    /// to it, read up to its `}`.
    pub fn label(&mut self, t: &Vec<Token>, pos: usize) -> (r: Result<usize, AsmError>)
        requires
            old(self).wf(),
            pos + 1 < t@.len(),
            t@[pos as int] is Identifier,
            t@[pos + 1] is Colon,
        ensures
            final(self).wf(),
            ({
                let (st, sr) = spec_label(t@, pos as int, old(self).pass_view());
                &&& final(self).pass_view() == st
                &&& match sr {
                    Ok(p) => r == Ok::<usize, AsmError>(p as usize) && pos + 2 <= p <= t@.len(),
                    Err(e) => r == Err::<usize, AsmError>(e),
                }
            }),
        decreases t@.len() - pos, 0nat,
    {
        let len = t.len();
        let name = match &t[pos] {
            Token::Identifier(n) => n,
            _ => {
                return Err(AsmError::UnexpectedToken { position: pos });
            },
        };
        proof {
            lemma_view_wf(&self.symbols);
        }
        let opens_scope = pos + 2 < len && matches!(t[pos + 2], Token::LBrace);
        if !opens_scope {
            let sym = Symbol::Location { section: 0, offset: self.pc, attached_scope: None };
            self.symbols.define_symbol(name.as_str(), sym, pos)?;
            return Ok(pos + 2);
        }
        if self.symbols.scope_count() == usize::MAX {
            return Err(AsmError::UnexpectedToken { position: pos + 2 });
        }
        let scope = self.symbols.opened_scopes() + 1;
        let sym = Symbol::Location { section: 0, offset: self.pc, attached_scope: Some(scope) };
        self.symbols.define_symbol(name.as_str(), sym, pos)?;
        if self.symbols.scope_count() == usize::MAX {
            return Err(AsmError::UnexpectedToken { position: pos + 2 });
        }
        self.symbols.push_scope();
        let p = self.scope_content(t, pos + 3);
        if p >= len {
            return Err(AsmError::UnexpectedEof);
        }
        match &t[p] {
            Token::RBrace => {},
            _ => {
                return Err(AsmError::UnexpectedToken { position: p });
            },
        }
        self.symbols.pop_scope();
        Ok(p + 1)
    }

    /// Statements from `pos` up to a `}` or the end of the input, as
    /// `spec_scope_content` says: a statement that fails adds its error and
    /// is skipped up to its end, so that one pass reports every failing
    /// statement. Returns where the statements stop.
    pub fn scope_content(&mut self, t: &Vec<Token>, pos: usize) -> (r: usize)
        requires
            old(self).wf(),
            pos <= t@.len(),
        ensures
            final(self).wf(),
            (final(self).pass_view(), r as int) == spec_scope_content(t@, pos as int, old(self).pass_view()),
            pos <= r <= t@.len() && (r == t@.len() || t@[r as int] is RBrace),
        decreases t@.len() - pos, 2nat,
    {
        let len = t.len();
        let mut p = pos;
        while p < len
            invariant
                self.wf(),
                pos <= p <= len,
                len == t@.len(),
                spec_scope_content(t@, pos as int, old(self).pass_view()) == spec_scope_content(t@, p as int, self.pass_view()),
            decreases len - p,
        {
            match &t[p] {
                Token::RBrace => {
                    return p;
                },
                Token::Eol | Token::Semicolon => {
                    p = p + 1;
                },
                _ => {
                    match self.statement(t, p) {
                        Ok(q) => {
                            p = q;
                        },
                        Err(e) => {
                            self.errors.push(e);
                            let q = skip_statement(t, p);
                            p = q;
                        },
                    }
                },
            }
        }
        p
    }

    /// One statement at `pos`, as `spec_statement` says.
    fn statement(&mut self, t: &Vec<Token>, pos: usize) -> (r: Result<usize, AsmError>)
        requires
            old(self).wf(),
            pos < t@.len(),
            !(t@[pos as int] is RBrace || t@[pos as int] is Eol || t@[pos as int] is Semicolon),
        ensures
            final(self).wf(),
            ({
                let (st, sr) = spec_statement(t@, pos as int, old(self).pass_view());
                &&& final(self).pass_view() == st
                &&& match sr {
                    Ok(q) => r == Ok::<usize, AsmError>(q as usize) && pos < q <= t@.len(),
                    Err(e) => r == Err::<usize, AsmError>(e),
                }
            }),
        decreases t@.len() - pos, 1nat,
    {
        let len = t.len();
        let p = pos;
        match &t[p] {
            Token::LBrace => {
                if self.symbols.scope_count() == usize::MAX {
                    return Err(AsmError::UnexpectedToken { position: p });
                }
                self.symbols.push_scope();
                let q = self.scope_content(t, p + 1);
                if q >= len {
                    return Err(AsmError::UnexpectedEof);
                }
                self.symbols.pop_scope();
                Ok(q + 1)
            },
            Token::Identifier(name) => {
                let next_is_colon = p + 1 < len && matches!(t[p + 1], Token::Colon);
                let next_is_assign = p + 1 < len && matches!(t[p + 1], Token::Assign);
                let ghost v0 = self.pass_view();
                if next_is_colon {
                    self.label(t, p)
                } else if next_is_assign {
                    let q = self.assignment(t, p)?;
                    self.statement_end(t, q)
                } else if name.as_str().unicode_len() > 0 && name.as_str().get_char(0) == '.' {
                    Err(AsmError::UnexpectedInstructionMnemonic { position: p })
                } else {
                    proof {
                        self.lemma_lookups_agree(t@);
                    }
                    let res = {
                        let lookup = PassSymbols { table: &self.symbols };
                        let res = instruction_at(t, p, &lookup);
                        proof {
                            assert(spec_instruction(t@, p as int, lookup) == spec_instruction(t@, p as int, view_symbols(v0.syms)));
                        }
                        res
                    };
                    let (i, q) = res?;
                    self.emit(&i);
                    self.statement_end(t, q)
                }
            },
            _ => Err(AsmError::UnexpectedToken { position: p }),
        }
    }

    /// Requires the statement that ended before `pos` to be followed by a
    /// newline, a semicolon, a `}` or the end; consumes a newline or
    /// semicolon.
    fn statement_end(&self, t: &Vec<Token>, pos: usize) -> (r: Result<usize, AsmError>)
        requires
            pos <= t@.len(),
        ensures
            match spec_statement_end(t@, pos as int) {
                Ok(p) => r == Ok::<usize, AsmError>(p as usize) && pos <= p <= pos + 1 && p <= t@.len(),
                Err(e) => r == Err::<usize, AsmError>(e),
            },
    {
        if pos >= t.len() {
            return Ok(pos);
        }
        match &t[pos] {
            Token::Eol | Token::Semicolon => Ok(pos + 1),
            Token::RBrace => Ok(pos),
            _ => Err(AsmError::UnexpectedToken { position: pos }),
        }
    }

    /// One pass over a whole input, as `spec_pass` says. Each failing
    /// statement, and each `}` that closes no scope, adds an error.
    pub fn file(&mut self, t: &Vec<Token>)
        requires
            old(self).wf(),
        ensures
            final(self).wf(),
            final(self).pass_view() == spec_pass(t@, old(self).pass_view()),
    {
        let len = t.len();
        let mut p = self.scope_content(t, 0);
        while p < len
            invariant
                self.wf(),
                p <= len,
                len == t@.len(),
                spec_pass(t@, old(self).pass_view()) == spec_file_rest(t@, p as int, self.pass_view()),
            decreases len - p,
        {
            self.errors.push(AsmError::UnexpectedToken { position: p });
            p = self.scope_content(t, p + 1);
        }
    }

    /// Errors recorded so far.
    pub fn errors(&self) -> (r: &Vec<AsmError>)
        ensures
            r@ == self.error_list(),
    {
        &self.errors
    }
}

/// Where skipping a failed statement at `pos` stops: just past the next
/// newline or semicolon, or at the next `}` or the end.
pub fn skip_statement(t: &Vec<Token>, pos: usize) -> (r: usize)
    requires
        pos < t@.len(),
    ensures
        r == skip_from(t@, pos + 1),
        pos < r <= t@.len(),
{
    let len = t.len();
    let mut q = pos + 1;
    while q < len && !matches!(t[q], Token::Eol | Token::Semicolon | Token::RBrace)
        invariant
            pos < q <= len,
            len == t@.len(),
            skip_from(t@, pos + 1) == skip_from(t@, q as int),
        decreases len - q,
    {
        q = q + 1;
    }
    if q < len && matches!(t[q], Token::Eol | Token::Semicolon) {
        q + 1
    } else {
        q
    }
}

/// The words that assembling gives: the first pass places every label and
/// defines every symbol, reading symbols not yet defined as 0; the second
/// reads all values again and refuses any symbol whose value changed. A
/// pass with errors ends the job with them.
pub open spec fn spec_assemble(t: Seq<Token>) -> Result<Seq<Word>, Seq<AsmError>> {
    let first = spec_pass(t, initial_pass());
    if first.errors.len() > 0 {
        Err(first.errors)
    } else {
        let second = spec_pass(t, second_pass_start(first));
        if second.errors.len() > 0 {
            Err(second.errors)
        } else {
            Ok(second.words)
        }
    }
}

/// Assemble tokens in two passes, as `spec_assemble` says: on success the
/// words of the second pass, each the encoding of one instruction statement
/// in source order; else the errors of the first pass that had any, in
/// order.
pub fn assemble(t: &Vec<Token>) -> (r: Result<Vec<Word>, Vec<AsmError>>)
    ensures
        match spec_assemble(t@) {
            Ok(w) => r matches Ok(v) && v@ == w,
            Err(e) => r matches Err(v) && v@ == e,
        },
        r matches Ok(w) ==> forall|k: int| 0 <= k < w@.len() ==> spec_decode(#[trigger] w@[k]) is Ok,
        r matches Err(e) ==> e@.len() > 0,
{
    let mut st = AssemblerState::new();
    st.file(t);
    if st.errors.len() > 0 {
        return Err(st.errors);
    }
    st.start_second_pass();
    st.file(t);
    if st.errors.len() > 0 {
        return Err(st.errors);
    }
    Ok(st.output)
}

} // verus!

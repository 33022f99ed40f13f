//! The stack-machine code generator.
//!
//! Lowers the parsed function list to x86-64 assembly for the System V
//! AMD64 calling convention, in Intel syntax. The translation is defined
//! twice: once as the specification `gen_node` (and its companions), a
//! mathematical function from a node and a label counter to the emitted
//! line sequence, and once executably; the executable generator is proved
//! to emit exactly the specified lines. The laws about the output — the
//! stack-machine discipline, the frame layout, and label uniqueness — are
//! proved of the specification and therefore hold of the output.
//!
//! Every expression pushes exactly one 8-byte value on the machine stack
//! and the surrounding code pops it; between statements the generator
//! pops and discards the stack top. Labels `.L.<role>.<n>` take their
//! numeric suffix from a counter that only grows, shared across the whole
//! program.

use vstd::prelude::*;

use crate::errors::CompileError;
use crate::parse::{
    all_lvars_below, is_binary_kind, lvars_below, ty_of, typed_ok, Function, LVar, Node, NodeKind,
    Parser,
};
use crate::types::TypeKind;

verus! {

broadcast use vstd::std_specs::vec::group_vec_axioms;

/// An x86-64 register name, as the emitted text spells it.
#[derive(PartialEq, Eq, Structural, Clone, Copy, Debug)]
pub enum Reg {
    Rax,
    Rdi,
    Rsi,
    Rdx,
    Rcx,
    R8,
    R9,
    Rbp,
    Rsp,
    Edi,
    Esi,
    Edx,
    Ecx,
    R8d,
    R9d,
}

/// The role part of a control-flow label `.L.<role>.<n>`.
#[derive(PartialEq, Eq, Structural, Clone, Copy, Debug)]
pub enum LabelRole {
    Begin,
    Else,
    End,
}

/// One line of the emitted assembly text.
///
/// The evaluation discipline's pushes and pops appear as `PushImm`,
/// `PushReg` and `PopReg`; every other instruction the generator emits
/// has a variant of its own, so the laws about the output can be read
/// off the line sequence.
pub enum Line {
    /// `.intel_syntax noprefix`
    IntelSyntax,
    /// `.global <name>`
    Global(String),
    /// `<name>:`
    FnLabel(String),
    /// `# ----- <name>`, one per local, emitted while laying out the frame
    LocalComment(String),
    /// `.L.<role>.<n>:`
    LabelDef(LabelRole, u32),
    /// `  je .L.<role>.<n>`
    Je(LabelRole, u32),
    /// `  jmp .L.<role>.<n>`
    Jmp(LabelRole, u32),
    /// `  push <val>`
    PushImm(u32),
    /// `  push <reg>`
    PushReg(Reg),
    /// `  pop <reg>`
    PopReg(Reg),
    /// `  mov <dst>, <src>`
    MovRegReg(Reg, Reg),
    /// `  sub <reg>, <imm>`
    SubRegImm(Reg, usize),
    /// `  mov [rbp-<off>], <reg>`
    MovToFrame(usize, Reg),
    /// `  movsxd rax, dword ptr [rax]`
    LoadDword,
    /// `  mov rax, [rax]`
    LoadQword,
    /// `  mov [rax], edi`
    StoreDword,
    /// `  mov [rax], rdi`
    StoreQword,
    /// `  add rax, rdi`
    AddRaxRdi,
    /// `  sub rax, rdi`
    SubRaxRdi,
    /// `  imul rax, rdi`
    ImulRaxRdi,
    /// `  cqo`
    Cqo,
    /// `  idiv rdi`
    IdivRdi,
    /// `  cmp rax, rdi`
    CmpRaxRdi,
    /// `  cmp rdi, rax`
    CmpRdiRax,
    /// `  cmp rax, 0`
    CmpRaxZero,
    /// `  sete al`
    SetE,
    /// `  setne al`
    SetNe,
    /// `  setl al`
    SetL,
    /// `  setle al`
    SetLe,
    /// `  movzb rax, al`
    MovzbRaxAl,
    /// `  call <name>`
    Call(String),
    /// `  ret`
    Ret,
}

// ---------------------------------------------------------------------
// Rounding a frame size up to the stack alignment
// ---------------------------------------------------------------------

/// The smallest multiple of `a` that is at least `max(n, a)`.
pub open spec fn spec_align(n: nat, a: nat) -> nat {
    if n < a {
        a
    } else if n % a == 0 {
        n
    } else {
        (n + (a - n % a)) as nat
    }
}

/// Rounds `n` up to the alignment `a`: the smallest multiple of `a`
/// that is at least `max(n, a)`.
pub fn align(n: usize, a: usize) -> (r: usize)
    requires
        0 < a,
        n + a <= usize::MAX,
    ensures
        r == spec_align(n as nat, a as nat),
        r % a == 0,
        r >= n,
        r >= a,
        forall|m: nat| #[trigger] (m % (a as nat)) == 0 && m >= n && m >= a ==> m >= r,
{
    proof {
        lemma_align_properties(n as nat, a as nat);
    }
    if n < a {
        return a;
    }
    let mut v: usize = n;
    while v % a != 0
        invariant
            0 < a <= n,
            n + a <= usize::MAX,
            n <= v,
            v <= spec_align(n as nat, a as nat),
            spec_align(n as nat, a as nat) % (a as nat) == 0,
            spec_align(n as nat, a as nat) <= n + a,
        decreases spec_align(n as nat, a as nat) - v,
    {
        v = v + 1;
    }
    proof {
        lemma_align_properties(n as nat, a as nat);
    }
    v
}

/// `spec_align(n, a)` is a multiple of `a`, at least `max(n, a)`, at most
/// `n + a`, and no smaller multiple of `a` reaches `max(n, a)`.
proof fn lemma_align_properties(n: nat, a: nat)
    requires
        0 < a,
    ensures
        spec_align(n, a) % a == 0,
        spec_align(n, a) >= n,
        spec_align(n, a) >= a,
        spec_align(n, a) <= n + a,
        forall|m: nat| #[trigger] (m % a) == 0 && m >= n && m >= a ==> m >= spec_align(n, a),
{
    vstd::arithmetic::div_mod::lemma_mod_self_0(a as int);
    if n < a {
    } else if n % a == 0 {
    } else {
        vstd::arithmetic::div_mod::lemma_mod_division_less_than_divisor(n as int, a as int);
        let r = n % a;
        assert(0 < r < a);
        // spec_align(n, a) == n + (a - r) is a multiple of a
        vstd::arithmetic::div_mod::lemma_add_mod_noop(n as int, (a - r) as int, a as int);
        vstd::arithmetic::div_mod::lemma_small_mod((a - r) as nat, a);
        assert((n + (a - r)) as int % (a as int) == (r + (a - r)) as int % (a as int));
        // no multiple of a lies in [n, n + (a - r))
        assert forall|m: nat| #[trigger] (m % a) == 0 && m >= n && m >= a implies m >= spec_align(n, a) by {
            if m < n + (a - r) {
                let k = (m - n) as nat;
                vstd::arithmetic::div_mod::lemma_add_mod_noop(n as int, k as int, a as int);
                vstd::arithmetic::div_mod::lemma_small_mod(k, a);
                assert(k < a - r);
                vstd::arithmetic::div_mod::lemma_small_mod((r + k) as nat, a);
                assert(m % a == r + k);
            }
        }
    }
}

// ---------------------------------------------------------------------
// Decimal rendering
// ---------------------------------------------------------------------

/// The decimal digit character for `d < 10`.
pub open spec fn dec_digit(d: nat) -> char {
    if d == 0 {
        '0'
    } else if d == 1 {
        '1'
    } else if d == 2 {
        '2'
    } else if d == 3 {
        '3'
    } else if d == 4 {
        '4'
    } else if d == 5 {
        '5'
    } else if d == 6 {
        '6'
    } else if d == 7 {
        '7'
    } else if d == 8 {
        '8'
    } else {
        '9'
    }
}

/// The decimal digit string of `n`, most significant digit first, with
/// no leading zeros (`0` itself is `"0"`).
pub open spec fn dec_str(n: nat) -> Seq<char>
    decreases n,
{
    if n < 10 {
        seq![dec_digit(n)]
    } else {
        dec_str(n / 10).push(dec_digit(n % 10))
    }
}

/// The one-character string of a decimal digit.
fn digit_string(d: u64) -> (s: &'static str)
    requires
        d < 10,
    ensures
        s@ == seq![dec_digit(d as nat)],
{
    proof {
        reveal_strlit("0");
        reveal_strlit("1");
        reveal_strlit("2");
        reveal_strlit("3");
        reveal_strlit("4");
        reveal_strlit("5");
        reveal_strlit("6");
        reveal_strlit("7");
        reveal_strlit("8");
        reveal_strlit("9");
    }
    if d == 0 {
        "0"
    } else if d == 1 {
        "1"
    } else if d == 2 {
        "2"
    } else if d == 3 {
        "3"
    } else if d == 4 {
        "4"
    } else if d == 5 {
        "5"
    } else if d == 6 {
        "6"
    } else if d == 7 {
        "7"
    } else if d == 8 {
        "8"
    } else {
        "9"
    }
}

/// The decimal text of `n`.
fn u64_to_string(n: u64) -> (s: String)
    ensures
        s@ == dec_str(n as nat),
    decreases n,
{
    if n < 10 {
        String::from_str(digit_string(n))
    } else {
        let mut s = u64_to_string(n / 10);
        s.append(digit_string(n % 10));
        s
    }
}

// ---------------------------------------------------------------------
// Rendering lines as text
// ---------------------------------------------------------------------

/// The spelling of a register name.
pub open spec fn reg_str(r: Reg) -> Seq<char> {
    match r {
        Reg::Rax => "rax"@,
        Reg::Rdi => "rdi"@,
        Reg::Rsi => "rsi"@,
        Reg::Rdx => "rdx"@,
        Reg::Rcx => "rcx"@,
        Reg::R8 => "r8"@,
        Reg::R9 => "r9"@,
        Reg::Rbp => "rbp"@,
        Reg::Rsp => "rsp"@,
        Reg::Edi => "edi"@,
        Reg::Esi => "esi"@,
        Reg::Edx => "edx"@,
        Reg::Ecx => "ecx"@,
        Reg::R8d => "r8d"@,
        Reg::R9d => "r9d"@,
    }
}

/// The spelling of a label role.
pub open spec fn role_str(k: LabelRole) -> Seq<char> {
    match k {
        LabelRole::Begin => "begin"@,
        LabelRole::Else => "else"@,
        LabelRole::End => "end"@,
    }
}

/// The text of one emitted line, without its newline. Instructions are
/// indented by two spaces; labels and directives are not.
pub open spec fn line_str(line: Line) -> Seq<char> {
    match line {
        Line::IntelSyntax => ".intel_syntax noprefix"@,
        Line::Global(name) => ".global "@ + name@,
        Line::FnLabel(name) => name@ + ":"@,
        Line::LocalComment(name) => "# ----- "@ + name@,
        Line::LabelDef(k, n) => ".L."@ + role_str(k) + "."@ + dec_str(n as nat) + ":"@,
        Line::Je(k, n) => "  je .L."@ + role_str(k) + "."@ + dec_str(n as nat),
        Line::Jmp(k, n) => "  jmp .L."@ + role_str(k) + "."@ + dec_str(n as nat),
        Line::PushImm(v) => "  push "@ + dec_str(v as nat),
        Line::PushReg(r) => "  push "@ + reg_str(r),
        Line::PopReg(r) => "  pop "@ + reg_str(r),
        Line::MovRegReg(d, s) => "  mov "@ + reg_str(d) + ", "@ + reg_str(s),
        Line::SubRegImm(r, imm) => "  sub "@ + reg_str(r) + ", "@ + dec_str(imm as nat),
        Line::MovToFrame(off, r) => "  mov [rbp-"@ + dec_str(off as nat) + "], "@ + reg_str(r),
        Line::LoadDword => "  movsxd rax, dword ptr [rax]"@,
        Line::LoadQword => "  mov rax, [rax]"@,
        Line::StoreDword => "  mov [rax], edi"@,
        Line::StoreQword => "  mov [rax], rdi"@,
        Line::AddRaxRdi => "  add rax, rdi"@,
        Line::SubRaxRdi => "  sub rax, rdi"@,
        Line::ImulRaxRdi => "  imul rax, rdi"@,
        Line::Cqo => "  cqo"@,
        Line::IdivRdi => "  idiv rdi"@,
        Line::CmpRaxRdi => "  cmp rax, rdi"@,
        Line::CmpRdiRax => "  cmp rdi, rax"@,
        Line::CmpRaxZero => "  cmp rax, 0"@,
        Line::SetE => "  sete al"@,
        Line::SetNe => "  setne al"@,
        Line::SetL => "  setl al"@,
        Line::SetLe => "  setle al"@,
        Line::MovzbRaxAl => "  movzb rax, al"@,
        Line::Call(name) => "  call "@ + name@,
        Line::Ret => "  ret"@,
    }
}

/// The text of a line sequence: each line followed by a newline.
pub open spec fn lines_str(ls: Seq<Line>) -> Seq<char>
    decreases ls,
{
    if ls.len() == 0 {
        Seq::<char>::empty()
    } else {
        line_str(ls[0]) + seq!['\n'] + lines_str(ls.subrange(1, ls.len() as int))
    }
}

/// The spelled-out name of a register.
fn reg_name(r: Reg) -> (s: &'static str)
    ensures
        s@ == reg_str(r),
{
    match r {
        Reg::Rax => "rax",
        Reg::Rdi => "rdi",
        Reg::Rsi => "rsi",
        Reg::Rdx => "rdx",
        Reg::Rcx => "rcx",
        Reg::R8 => "r8",
        Reg::R9 => "r9",
        Reg::Rbp => "rbp",
        Reg::Rsp => "rsp",
        Reg::Edi => "edi",
        Reg::Esi => "esi",
        Reg::Edx => "edx",
        Reg::Ecx => "ecx",
        Reg::R8d => "r8d",
        Reg::R9d => "r9d",
    }
}

/// The spelled-out role of a control-flow label.
fn role_name(k: LabelRole) -> (s: &'static str)
    ensures
        s@ == role_str(k),
{
    match k {
        LabelRole::Begin => "begin",
        LabelRole::Else => "else",
        LabelRole::End => "end",
    }
}

/// The decimal text of a `u32`.
fn u32_text(n: u32) -> (s: String)
    ensures
        s@ == dec_str(n as nat),
{
    u64_to_string(n as u64)
}

/// The decimal text of a `usize`.
fn usize_text(n: usize) -> (s: String)
    ensures
        s@ == dec_str(n as nat),
{
    u64_to_string(n as u64)
}

/// Renders one line as text, without its newline.
fn render_line(line: &Line) -> (s: String)
    ensures
        s@ == line_str(*line),
{
    match line {
        Line::IntelSyntax => String::from_str(".intel_syntax noprefix"),
        Line::Global(name) => {
            let mut s = String::from_str(".global ");
            s.append(name.as_str());
            s
        },
        Line::FnLabel(name) => {
            let mut s = (*name).clone();
            s.append(":");
            s
        },
        Line::LocalComment(name) => {
            let mut s = String::from_str("# ----- ");
            s.append(name.as_str());
            s
        },
        Line::LabelDef(k, n) => {
            let mut s = String::from_str(".L.");
            s.append(role_name(*k));
            s.append(".");
            let t = u32_text(*n);
            s.append(t.as_str());
            s.append(":");
            s
        },
        Line::Je(k, n) => {
            let mut s = String::from_str("  je .L.");
            s.append(role_name(*k));
            s.append(".");
            let t = u32_text(*n);
            s.append(t.as_str());
            s
        },
        Line::Jmp(k, n) => {
            let mut s = String::from_str("  jmp .L.");
            s.append(role_name(*k));
            s.append(".");
            let t = u32_text(*n);
            s.append(t.as_str());
            s
        },
        Line::PushImm(v) => {
            let mut s = String::from_str("  push ");
            let t = u32_text(*v);
            s.append(t.as_str());
            s
        },
        Line::PushReg(r) => {
            let mut s = String::from_str("  push ");
            s.append(reg_name(*r));
            s
        },
        Line::PopReg(r) => {
            let mut s = String::from_str("  pop ");
            s.append(reg_name(*r));
            s
        },
        Line::MovRegReg(d, src) => {
            let mut s = String::from_str("  mov ");
            s.append(reg_name(*d));
            s.append(", ");
            s.append(reg_name(*src));
            s
        },
        Line::SubRegImm(r, imm) => {
            let mut s = String::from_str("  sub ");
            s.append(reg_name(*r));
            s.append(", ");
            let t = usize_text(*imm);
            s.append(t.as_str());
            s
        },
        Line::MovToFrame(off, r) => {
            let mut s = String::from_str("  mov [rbp-");
            let t = usize_text(*off);
            s.append(t.as_str());
            s.append("], ");
            s.append(reg_name(*r));
            s
        },
        Line::LoadDword => String::from_str("  movsxd rax, dword ptr [rax]"),
        Line::LoadQword => String::from_str("  mov rax, [rax]"),
        Line::StoreDword => String::from_str("  mov [rax], edi"),
        Line::StoreQword => String::from_str("  mov [rax], rdi"),
        Line::AddRaxRdi => String::from_str("  add rax, rdi"),
        Line::SubRaxRdi => String::from_str("  sub rax, rdi"),
        Line::ImulRaxRdi => String::from_str("  imul rax, rdi"),
        Line::Cqo => String::from_str("  cqo"),
        Line::IdivRdi => String::from_str("  idiv rdi"),
        Line::CmpRaxRdi => String::from_str("  cmp rax, rdi"),
        Line::CmpRdiRax => String::from_str("  cmp rdi, rax"),
        Line::CmpRaxZero => String::from_str("  cmp rax, 0"),
        Line::SetE => String::from_str("  sete al"),
        Line::SetNe => String::from_str("  setne al"),
        Line::SetL => String::from_str("  setl al"),
        Line::SetLe => String::from_str("  setle al"),
        Line::MovzbRaxAl => String::from_str("  movzb rax, al"),
        Line::Call(name) => {
            let mut s = String::from_str("  call ");
            s.append(name.as_str());
            s
        },
        Line::Ret => String::from_str("  ret"),
    }
}

/// Renders a line sequence as the full output text, one line per
/// newline-terminated row.
pub fn render_lines(lines: &Vec<Line>) -> (s: String)
    ensures
        s@ == lines_str(lines@),
{
    let ghost all = lines@;
    let mut s = String::new();
    proof {
        reveal_strlit("\n");
        assert(all.subrange(0, all.len() as int) =~= all);
        assert(Seq::<char>::empty() + lines_str(all) =~= lines_str(all));
    }
    let mut i: usize = 0;
    while i < lines.len()
        invariant
            i <= lines.len(),
            all == lines@,
            "\n"@ == seq!['\n'],
            s@ + lines_str(all.subrange(i as int, all.len() as int)) == lines_str(all),
        decreases lines.len() - i,
    {
        let ghost before = s@;
        let row = render_line(&lines[i]);
        s.append(row.as_str());
        s.append("\n");
        proof {
            let sub = all.subrange(i as int, all.len() as int);
            assert(sub[0] == all[i as int]);
            assert(sub.subrange(1, sub.len() as int) =~= all.subrange(
                i as int + 1,
                all.len() as int,
            ));
            assert(s@ + lines_str(all.subrange(i as int + 1, all.len() as int)) =~= before
                + lines_str(sub));
        }
        i = i + 1;
    }
    proof {
        assert(all.subrange(all.len() as int, all.len() as int) =~= Seq::<Line>::empty());
        assert(s@ =~= lines_str(all));
    }
    s
}

// ---------------------------------------------------------------------
// The specification of the translation
// ---------------------------------------------------------------------

/// The 8-byte argument register for parameter position `i` of the
/// System V AMD64 calling convention.
pub open spec fn arg_reg8(i: int) -> Reg {
    if i == 0 {
        Reg::Rdi
    } else if i == 1 {
        Reg::Rsi
    } else if i == 2 {
        Reg::Rdx
    } else if i == 3 {
        Reg::Rcx
    } else if i == 4 {
        Reg::R8
    } else {
        Reg::R9
    }
}

/// The 4-byte sibling of the argument register for position `i`.
pub open spec fn arg_reg4(i: int) -> Reg {
    if i == 0 {
        Reg::Edi
    } else if i == 1 {
        Reg::Esi
    } else if i == 2 {
        Reg::Edx
    } else if i == 3 {
        Reg::Ecx
    } else if i == 4 {
        Reg::R8d
    } else {
        Reg::R9d
    }
}

/// The instruction lines of one pure binary operator, operands in `rax`
/// and `rdi`; the comparisons with operands swapped realise `>` and `>=`
/// through `setl` and `setle`.
pub open spec fn op_lines(op: NodeKind) -> Seq<Line> {
    match op {
        NodeKind::NdAdd => seq![Line::AddRaxRdi],
        NodeKind::NdSub => seq![Line::SubRaxRdi],
        NodeKind::NdMul => seq![Line::ImulRaxRdi],
        NodeKind::NdDiv => seq![Line::Cqo, Line::IdivRdi],
        NodeKind::NdMt => seq![Line::CmpRdiRax, Line::SetL, Line::MovzbRaxAl],
        NodeKind::NdLt => seq![Line::CmpRaxRdi, Line::SetL, Line::MovzbRaxAl],
        NodeKind::NdOm => seq![Line::CmpRdiRax, Line::SetLe, Line::MovzbRaxAl],
        NodeKind::NdOl => seq![Line::CmpRaxRdi, Line::SetLe, Line::MovzbRaxAl],
        NodeKind::NdEq => seq![Line::CmpRaxRdi, Line::SetE, Line::MovzbRaxAl],
        NodeKind::NdNe => seq![Line::CmpRaxRdi, Line::SetNe, Line::MovzbRaxAl],
        _ => seq![],
    }
}

/// The size-appropriate load of `[rax]` into `rax`.
pub open spec fn load_line(size: usize) -> Line {
    if size == 4 {
        Line::LoadDword
    } else {
        Line::LoadQword
    }
}

/// The size-appropriate store of `rdi`/`edi` into `[rax]`.
pub open spec fn store_line(size: usize) -> Line {
    if size == 4 {
        Line::StoreDword
    } else {
        Line::StoreQword
    }
}

/// The function epilogue: restore the caller's frame and return.
pub open spec fn epilogue() -> Seq<Line> {
    seq![
        Line::MovRegReg(Reg::Rsp, Reg::Rbp),
        Line::PopReg(Reg::Rbp),
        Line::Ret,
    ]
}

/// The pops that move `k` generated arguments into the argument
/// registers, highest index first.
pub open spec fn pop_args(k: int) -> Seq<Line> {
    Seq::new(k as nat, |i: int| Line::PopReg(arg_reg8(k - 1 - i)))
}

/// The lines and the label counter after generating `n` as an rvalue,
/// with `offs` the frame offset of each local by frame index and `l`
/// the incoming label counter.
pub open spec fn gen_node(n: Node, offs: Seq<usize>, l: nat) -> (Seq<Line>, nat)
    decreases n, 1int,
{
    match n {
        Node::Num { val } => (seq![Line::PushImm(val)], l),
        Node::Lv { lvar } => {
            let (pl, l1) = gen_addr(n, offs, l);
            if lvar.ty.kind != TypeKind::TyArr {
                (
                    pl + seq![
                        Line::PopReg(Reg::Rax),
                        load_line(lvar.ty.size),
                        Line::PushReg(Reg::Rax),
                    ],
                    l1,
                )
            } else {
                (pl, l1)
            }
        },
        Node::Addr { lhs } => gen_addr(*lhs, offs, l),
        Node::Deref { lhs } => {
            let (cl, l1) = gen_node(*lhs, offs, l);
            if ty_of(n).kind != TypeKind::TyArr {
                (
                    cl + seq![
                        Line::PopReg(Reg::Rax),
                        load_line(ty_of(n).size),
                        Line::PushReg(Reg::Rax),
                    ],
                    l1,
                )
            } else {
                (cl, l1)
            }
        },
        Node::Bin { op, lhs, rhs } => {
            if op == NodeKind::NdAs {
                let (al, l1) = gen_addr(*lhs, offs, l);
                let (rl, l2) = gen_node(*rhs, offs, l1);
                (
                    al + rl + seq![
                        Line::PopReg(Reg::Rdi),
                        Line::PopReg(Reg::Rax),
                        store_line(ty_of(n).size),
                        Line::PushReg(Reg::Rdi),
                    ],
                    l2,
                )
            } else {
                let (ll, l1) = gen_node(*lhs, offs, l);
                let (rl, l2) = gen_node(*rhs, offs, l1);
                (
                    ll + rl + seq![Line::PopReg(Reg::Rdi), Line::PopReg(Reg::Rax)] + op_lines(op)
                        + seq![Line::PushReg(Reg::Rax)],
                    l2,
                )
            }
        },
        Node::If { cond, body, els } => {
            let (cl, l1) = gen_node(*cond, offs, l + 1);
            let (bl, l2) = gen_node(*body, offs, l1);
            match els {
                Some(e) => {
                    let (el, l3) = gen_node(*e, offs, l2);
                    (
                        cl + seq![
                            Line::PopReg(Reg::Rax),
                            Line::CmpRaxZero,
                            Line::Je(LabelRole::Else, l as u32),
                        ] + bl + seq![
                            Line::Jmp(LabelRole::End, l as u32),
                            Line::LabelDef(LabelRole::Else, l as u32),
                        ] + el + seq![Line::LabelDef(LabelRole::End, l as u32)],
                        l3,
                    )
                },
                None => (
                    cl + seq![
                        Line::PopReg(Reg::Rax),
                        Line::CmpRaxZero,
                        Line::Je(LabelRole::End, l as u32),
                    ] + bl + seq![Line::LabelDef(LabelRole::End, l as u32)],
                    l2,
                ),
            }
        },
        Node::While { cond, body } => {
            let (cl, l1) = gen_node(*cond, offs, l + 1);
            let (bl, l2) = gen_node(*body, offs, l1);
            (
                seq![Line::LabelDef(LabelRole::Begin, l as u32)] + cl + seq![
                    Line::PopReg(Reg::Rax),
                    Line::CmpRaxZero,
                    Line::Je(LabelRole::End, l as u32),
                ] + bl + seq![
                    Line::Jmp(LabelRole::Begin, l as u32),
                    Line::LabelDef(LabelRole::End, l as u32),
                ],
                l2,
            )
        },
        Node::For { preop, cond, postop, body } => {
            let (pl, l1) = match preop {
                Some(p) => gen_node(*p, offs, l + 1),
                None => (Seq::<Line>::empty(), l + 1),
            };
            let (cl, l2) = match cond {
                Some(c) => {
                    let (x, lx) = gen_node(*c, offs, l1);
                    (
                        x + seq![
                            Line::PopReg(Reg::Rax),
                            Line::CmpRaxZero,
                            Line::Je(LabelRole::End, l as u32),
                        ],
                        lx,
                    )
                },
                None => (Seq::<Line>::empty(), l1),
            };
            let (bl, l3) = gen_node(*body, offs, l2);
            let (ql, l4) = match postop {
                Some(q) => gen_node(*q, offs, l3),
                None => (Seq::<Line>::empty(), l3),
            };
            (
                pl + seq![Line::LabelDef(LabelRole::Begin, l as u32)] + cl + bl + ql + seq![
                    Line::Jmp(LabelRole::Begin, l as u32),
                    Line::LabelDef(LabelRole::End, l as u32),
                ],
                l4,
            )
        },
        Node::Block { blocks } => gen_stmts(blocks@, offs, l),
        Node::Func { funcname, args } => {
            let (al, l1) = gen_args(args@, offs, l);
            (
                al + pop_args(args@.len() as int) + seq![
                    Line::Call(funcname),
                    Line::PushReg(Reg::Rax),
                ],
                l1,
            )
        },
        Node::Rt { lhs } => {
            let (cl, l1) = gen_node(*lhs, offs, l);
            (cl + seq![Line::PopReg(Reg::Rax)] + epilogue(), l1)
        },
    }
}

/// The lines and label counter after generating `n` as an lvalue: a
/// local's address is `rbp` minus its frame offset; a dereference
/// evaluates its operand, leaving the address on the stack.
pub open spec fn gen_addr(n: Node, offs: Seq<usize>, l: nat) -> (Seq<Line>, nat)
    decreases n, 0int,
{
    match n {
        Node::Lv { lvar } => (
            seq![
                Line::MovRegReg(Reg::Rax, Reg::Rbp),
                Line::SubRegImm(Reg::Rax, offs[lvar.id as int]),
                Line::PushReg(Reg::Rax),
            ],
            l,
        ),
        Node::Deref { lhs } => gen_node(*lhs, offs, l),
        _ => (Seq::<Line>::empty(), l),
    }
}

/// The lines of a statement sequence: after each statement the stack
/// top is popped and discarded.
pub open spec fn gen_stmts(s: Seq<Node>, offs: Seq<usize>, l: nat) -> (Seq<Line>, nat)
    decreases s, 2int,
{
    if s.len() == 0 {
        (Seq::<Line>::empty(), l)
    } else {
        let (fl, l1) = gen_node(s[0], offs, l);
        let (rl, l2) = gen_stmts(s.subrange(1, s.len() as int), offs, l1);
        (fl + seq![Line::PopReg(Reg::Rax)] + rl, l2)
    }
}

/// The lines of the argument expressions of a call, generated left to
/// right, each leaving its value on the stack.
pub open spec fn gen_args(s: Seq<Node>, offs: Seq<usize>, l: nat) -> (Seq<Line>, nat)
    decreases s, 2int,
{
    if s.len() == 0 {
        (Seq::<Line>::empty(), l)
    } else {
        let (fl, l1) = gen_node(s[0], offs, l);
        let (rl, l2) = gen_args(s.subrange(1, s.len() as int), offs, l1);
        (fl + rl, l2)
    }
}

/// The sum of the sizes of the locals from frame index `i` on; the
/// frame offset of local `i` and, at `i == 0`, the whole frame's used
/// size.
pub open spec fn suffix_size(locals: Seq<LVar>, i: int) -> nat
    decreases locals.len() - i,
{
    if i < 0 || i >= locals.len() {
        0
    } else {
        (locals[i].ty.size + suffix_size(locals, i + 1)) as nat
    }
}

/// The frame offset of each local by frame index: the running size
/// total accumulated over the locals in reverse declaration order, so
/// earlier-declared locals sit at higher offsets... and the first
/// local's offset is the whole used size.
pub open spec fn offsets_of(locals: Seq<LVar>) -> Seq<usize> {
    Seq::new(locals.len(), |i: int| suffix_size(locals, i) as usize)
}

/// The comment lines the generator emits while laying out the frame,
/// one per local, in reverse declaration order.
pub open spec fn comment_lines(locals: Seq<LVar>) -> Seq<Line> {
    Seq::new(locals.len(), |i: int| Line::LocalComment(locals[locals.len() - 1 - i].name))
}

/// The stores of the incoming argument registers into the parameters'
/// frame slots, in declaration order, choosing the 4-byte register for
/// parameters of size 4.
pub open spec fn param_stores(f: Function) -> Seq<Line> {
    Seq::new(
        f.paramnum as nat,
        |i: int| Line::MovToFrame(
            offsets_of(f.locals@)[i],
            if f.locals@[i].ty.size == 4 {
                arg_reg4(i)
            } else {
                arg_reg8(i)
            },
        ),
    )
}

/// The lines of one function: directives, the layout comments, the
/// prologue with the 16-byte-aligned frame, the parameter stores, the
/// body with a pop after each statement, and the epilogue.
pub open spec fn gen_function(f: Function, l: nat) -> (Seq<Line>, nat) {
    let offs = offsets_of(f.locals@);
    let total = suffix_size(f.locals@, 0);
    let (bl, l1) = gen_stmts(f.body@, offs, l);
    (
        seq![Line::Global(f.name), Line::FnLabel(f.name)] + comment_lines(f.locals@) + seq![
            Line::PushReg(Reg::Rbp),
            Line::MovRegReg(Reg::Rbp, Reg::Rsp),
            Line::SubRegImm(Reg::Rsp, spec_align(total, 16) as usize),
        ] + param_stores(f) + bl + epilogue(),
        l1,
    )
}

/// The lines of the function list, the label counter threaded through.
pub open spec fn gen_program(funcs: Seq<Function>, l: nat) -> (Seq<Line>, nat)
    decreases funcs,
{
    if funcs.len() == 0 {
        (Seq::<Line>::empty(), l)
    } else {
        let (fl, l1) = gen_function(funcs[0], l);
        let (rl, l2) = gen_program(funcs.subrange(1, funcs.len() as int), l1);
        (fl + rl, l2)
    }
}

/// The whole translation unit: the syntax directive, then each
/// function, with the label counter starting at `l`.
pub open spec fn gen_output(funcs: Seq<Function>, l: nat) -> Seq<Line> {
    seq![Line::IntelSyntax] + gen_program(funcs, l).0
}

// ---------------------------------------------------------------------
// When generation succeeds
// ---------------------------------------------------------------------

/// True when generating `n` as an rvalue raises no diagnostic: every
/// assignment target and address-of operand is an lvalue, every
/// dereference is applied to a pointer-typed operand wherever its type
/// is consulted, and no call passes more than six arguments.
pub open spec fn gen_ok(n: Node) -> bool
    decreases n, 1int,
{
    match n {
        Node::Num { .. } => true,
        Node::Lv { .. } => true,
        Node::Addr { lhs } => addr_ok(*lhs),
        Node::Deref { lhs } => gen_ok(*lhs) && typed_ok(n),
        Node::Bin { op, lhs, rhs } => {
            if op == NodeKind::NdAs {
                addr_ok(*lhs) && gen_ok(*rhs) && typed_ok(*lhs)
            } else {
                is_binary_kind(op) && gen_ok(*lhs) && gen_ok(*rhs)
            }
        },
        Node::If { cond, body, els } => {
            &&& gen_ok(*cond)
            &&& gen_ok(*body)
            &&& (els matches Some(e) ==> gen_ok(*e))
        },
        Node::While { cond, body } => gen_ok(*cond) && gen_ok(*body),
        Node::For { preop, cond, postop, body } => {
            &&& (preop matches Some(e) ==> gen_ok(*e))
            &&& (cond matches Some(e) ==> gen_ok(*e))
            &&& (postop matches Some(e) ==> gen_ok(*e))
            &&& gen_ok(*body)
        },
        Node::Block { blocks } => all_gen_ok(blocks@),
        Node::Func { args, .. } => all_gen_ok(args@) && args@.len() <= 6,
        Node::Rt { lhs } => gen_ok(*lhs),
    }
}

/// True when `n` can be emitted as an lvalue: it is a local or a
/// dereference; anything else is the "left value is not a variable"
/// diagnostic.
pub open spec fn addr_ok(n: Node) -> bool
    decreases n, 0int,
{
    match n {
        Node::Lv { .. } => true,
        Node::Deref { lhs } => gen_ok(*lhs),
        _ => false,
    }
}

/// True when every node of the sequence generates without a diagnostic.
pub open spec fn all_gen_ok(s: Seq<Node>) -> bool
    decreases s, 2int,
{
    s.len() == 0 || (gen_ok(s[0]) && all_gen_ok(s.subrange(1, s.len() as int)))
}

/// True when every statement of every function generates without a
/// diagnostic and no function has more than six parameters.
pub open spec fn program_ok(funcs: Seq<Function>) -> bool {
    forall|i: int|
        0 <= i < funcs.len() ==> {
            &&& all_gen_ok((#[trigger] funcs[i]).body@)
            &&& funcs[i].paramnum <= 6
        }
}

// ---------------------------------------------------------------------
// The label counter only grows
// ---------------------------------------------------------------------

/// Generating any node leaves the label counter no smaller.
pub proof fn lemma_gen_node_label_grows(n: Node, offs: Seq<usize>, l: nat)
    ensures
        gen_node(n, offs, l).1 >= l,
        gen_addr(n, offs, l).1 >= l,
    decreases n,
{
    match n {
        Node::Num { .. } => {},
        Node::Lv { .. } => {
            assert(gen_addr(n, offs, l).1 == l);
        },
        Node::Addr { lhs } => {
            lemma_gen_node_label_grows(*lhs, offs, l);
        },
        Node::Deref { lhs } => {
            lemma_gen_node_label_grows(*lhs, offs, l);
        },
        Node::Bin { op, lhs, rhs } => {
            if op == NodeKind::NdAs {
                lemma_gen_node_label_grows(*lhs, offs, l);
                lemma_gen_node_label_grows(*rhs, offs, gen_addr(*lhs, offs, l).1);
            } else {
                lemma_gen_node_label_grows(*lhs, offs, l);
                lemma_gen_node_label_grows(*rhs, offs, gen_node(*lhs, offs, l).1);
            }
        },
        Node::If { cond, body, els } => {
            lemma_gen_node_label_grows(*cond, offs, l + 1);
            let l1 = gen_node(*cond, offs, l + 1).1;
            lemma_gen_node_label_grows(*body, offs, l1);
            let l2 = gen_node(*body, offs, l1).1;
            match els {
                Some(e) => {
                    lemma_gen_node_label_grows(*e, offs, l2);
                },
                None => {},
            }
        },
        Node::While { cond, body } => {
            lemma_gen_node_label_grows(*cond, offs, l + 1);
            lemma_gen_node_label_grows(*body, offs, gen_node(*cond, offs, l + 1).1);
        },
        Node::For { preop, cond, postop, body } => {
            let l1 = match preop {
                Some(p) => {
                    lemma_gen_node_label_grows(*p, offs, l + 1);
                    gen_node(*p, offs, l + 1).1
                },
                None => l + 1,
            };
            let l2 = match cond {
                Some(c) => {
                    lemma_gen_node_label_grows(*c, offs, l1);
                    gen_node(*c, offs, l1).1
                },
                None => l1,
            };
            lemma_gen_node_label_grows(*body, offs, l2);
            let l3 = gen_node(*body, offs, l2).1;
            match postop {
                Some(q) => {
                    lemma_gen_node_label_grows(*q, offs, l3);
                },
                None => {},
            }
        },
        Node::Block { blocks } => {
            lemma_gen_stmts_label_grows(blocks@, offs, l);
        },
        Node::Func { args, .. } => {
            lemma_gen_args_label_grows(args@, offs, l);
        },
        Node::Rt { lhs } => {
            lemma_gen_node_label_grows(*lhs, offs, l);
        },
    }
}

/// Generating a statement sequence leaves the label counter no smaller.
pub proof fn lemma_gen_stmts_label_grows(s: Seq<Node>, offs: Seq<usize>, l: nat)
    ensures
        gen_stmts(s, offs, l).1 >= l,
    decreases s,
{
    if s.len() > 0 {
        lemma_gen_node_label_grows(s[0], offs, l);
        lemma_gen_stmts_label_grows(s.subrange(1, s.len() as int), offs, gen_node(s[0], offs, l).1);
    }
}

/// Generating an argument sequence leaves the label counter no smaller.
pub proof fn lemma_gen_args_label_grows(s: Seq<Node>, offs: Seq<usize>, l: nat)
    ensures
        gen_args(s, offs, l).1 >= l,
    decreases s,
{
    if s.len() > 0 {
        lemma_gen_node_label_grows(s[0], offs, l);
        lemma_gen_args_label_grows(s.subrange(1, s.len() as int), offs, gen_node(s[0], offs, l).1);
    }
}


// ---------------------------------------------------------------------
// The executable generator
// ---------------------------------------------------------------------

/// The 8-byte argument register for parameter position `i`.
fn arg_reg8_at(i: usize) -> (r: Reg)
    requires
        i < 6,
    ensures
        r == arg_reg8(i as int),
{
    if i == 0 {
        Reg::Rdi
    } else if i == 1 {
        Reg::Rsi
    } else if i == 2 {
        Reg::Rdx
    } else if i == 3 {
        Reg::Rcx
    } else if i == 4 {
        Reg::R8
    } else {
        Reg::R9
    }
}

/// The 4-byte argument register for parameter position `i`.
fn arg_reg4_at(i: usize) -> (r: Reg)
    requires
        i < 6,
    ensures
        r == arg_reg4(i as int),
{
    if i == 0 {
        Reg::Edi
    } else if i == 1 {
        Reg::Esi
    } else if i == 2 {
        Reg::Edx
    } else if i == 3 {
        Reg::Ecx
    } else if i == 4 {
        Reg::R8d
    } else {
        Reg::R9d
    }
}

/// The code generator: the program-wide label counter and, while a
/// function is generated, the frame offset of each of its locals by
/// frame index.
pub struct Generator {
    pub label: u32,
    pub var_offsets: Vec<usize>,
}

impl Generator {
    /// A fresh generator: label counter zero, no frame laid out.
    pub fn new() -> (g: Generator)
        ensures
            g.label == 0,
            g.var_offsets@ == Seq::<usize>::empty(),
    {
        Generator { label: 0, var_offsets: Vec::new() }
    }

    /// Draws the next label number; the counter only grows.
    fn new_label(&mut self) -> (r: Result<u32, CompileError>)
        ensures
            final(self).var_offsets == old(self).var_offsets,
            old(self).label < u32::MAX ==> (r matches Ok(x) && x == old(self).label
                && final(self).label == old(self).label + 1),
            old(self).label == u32::MAX ==> r is Err && final(self).label == old(self).label,
    {
        if self.label == u32::MAX {
            return Err(CompileError::SemanticError(String::from_str("label counter exhausted")));
        }
        let label = self.label;
        self.label = self.label + 1;
        Ok(label)
    }

    /// Emits `node` as an lvalue: the address ends up on the stack. A
    /// local's address is `rbp` minus its frame offset; a dereference
    /// evaluates its operand; anything else is the fatal "left value is
    /// not a variable" diagnostic.
    fn gen_lval(&mut self, node: &Node, out: &mut Vec<Line>) -> (r: Result<(), CompileError>)
        requires
            lvars_below(*node, old(self).var_offsets@.len() as nat),
        ensures
            final(self).var_offsets == old(self).var_offsets,
            final(self).label >= old(self).label,
            r is Ok <==> addr_ok(*node) && gen_addr(
                *node,
                old(self).var_offsets@,
                old(self).label as nat,
            ).1 <= u32::MAX,
            r is Ok ==> final(out)@ == old(out)@ + gen_addr(
                *node,
                old(self).var_offsets@,
                old(self).label as nat,
            ).0 && final(self).label as nat == gen_addr(
                *node,
                old(self).var_offsets@,
                old(self).label as nat,
            ).1,
        decreases *node, 0int,
    {
        match node {
            Node::Lv { lvar } => {
                out.push(Line::MovRegReg(Reg::Rax, Reg::Rbp));
                out.push(Line::SubRegImm(Reg::Rax, self.var_offsets[lvar.id]));
                out.push(Line::PushReg(Reg::Rax));
                proof {
                    assert(out@ =~= old(out)@ + gen_addr(
                        *node,
                        old(self).var_offsets@,
                        old(self).label as nat,
                    ).0);
                }
                Ok(())
            },
            Node::Deref { lhs } => self.gen(&**lhs, out),
            _ => Err(
                CompileError::SemanticError(
                    String::from_str("The left value of the assignment is not a variable."),
                ),
            ),
        }
    }

    /// Emits `node` as an rvalue, appending to `out` exactly the lines
    /// that `gen_node` specifies and advancing the label counter to the
    /// value it specifies. Fails exactly when some assignment target or
    /// address-of operand is no lvalue, some dereference whose type is
    /// consulted is not applied to a pointer, some call passes more than
    /// six arguments, or the label counter would overflow.
    fn gen(&mut self, node: &Node, out: &mut Vec<Line>) -> (r: Result<(), CompileError>)
        requires
            lvars_below(*node, old(self).var_offsets@.len() as nat),
        ensures
            final(self).var_offsets == old(self).var_offsets,
            final(self).label >= old(self).label,
            r is Ok <==> gen_ok(*node) && gen_node(
                *node,
                old(self).var_offsets@,
                old(self).label as nat,
            ).1 <= u32::MAX,
            r is Ok ==> final(out)@ == old(out)@ + gen_node(
                *node,
                old(self).var_offsets@,
                old(self).label as nat,
            ).0 && final(self).label as nat == gen_node(
                *node,
                old(self).var_offsets@,
                old(self).label as nat,
            ).1,
        decreases *node, 2int,
    {
        let ghost offs = old(self).var_offsets@;
        let ghost l0 = old(self).label as nat;
        let ghost base = old(out)@;
        match node {
            Node::Num { val } => {
                out.push(Line::PushImm(*val));
                proof {
                    assert(out@ =~= base + gen_node(*node, offs, l0).0);
                }
                Ok(())
            },
            Node::Lv { lvar } => {
                proof {
                    assert(gen_addr(*node, offs, l0).1 == l0);
                }
                self.gen_lval(node, out)?;
                if lvar.ty.kind != TypeKind::TyArr {
                    out.push(Line::PopReg(Reg::Rax));
                    if lvar.ty.size == 4 {
                        out.push(Line::LoadDword);
                    } else {
                        out.push(Line::LoadQword);
                    }
                    out.push(Line::PushReg(Reg::Rax));
                }
                proof {
                    assert(out@ =~= base + gen_node(*node, offs, l0).0);
                }
                Ok(())
            },
            Node::Addr { lhs } => self.gen_lval(&**lhs, out),
            Node::Deref { lhs } => {
                self.gen(&**lhs, out)?;
                let t = node.check_type();
                match t {
                    Err(e) => Err(e),
                    Ok(ty) => {
                        if ty.kind != TypeKind::TyArr {
                            out.push(Line::PopReg(Reg::Rax));
                            if ty.size == 4 {
                                out.push(Line::LoadDword);
                            } else {
                                out.push(Line::LoadQword);
                            }
                            out.push(Line::PushReg(Reg::Rax));
                        }
                        proof {
                            assert(out@ =~= base + gen_node(*node, offs, l0).0);
                        }
                        Ok(())
                    },
                }
            },
            Node::Bin { .. } => self.gen_bin(node, out),
            Node::If { .. } => self.gen_if(node, out),
            Node::While { .. } => self.gen_while(node, out),
            Node::For { .. } => self.gen_for(node, out),
            Node::Block { .. } => self.gen_block(node, out),
            Node::Func { .. } => self.gen_call(node, out),
            Node::Rt { lhs } => {
                self.gen(&**lhs, out)?;
                out.push(Line::PopReg(Reg::Rax));
                out.push(Line::MovRegReg(Reg::Rsp, Reg::Rbp));
                out.push(Line::PopReg(Reg::Rbp));
                out.push(Line::Ret);
                proof {
                    assert(out@ =~= base + gen_node(*node, offs, l0).0);
                }
                Ok(())
            },
        }
    }

    /// Emits a binary operator or an assignment: both sides, the two
    /// operand pops, and the operation.
    fn gen_bin(&mut self, node: &Node, out: &mut Vec<Line>) -> (r: Result<(), CompileError>)
        requires
            *node matches Node::Bin { .. },
            lvars_below(*node, old(self).var_offsets@.len() as nat),
        ensures
            final(self).var_offsets == old(self).var_offsets,
            final(self).label >= old(self).label,
            r is Ok <==> gen_ok(*node) && gen_node(
                *node,
                old(self).var_offsets@,
                old(self).label as nat,
            ).1 <= u32::MAX,
            r is Ok ==> final(out)@ == old(out)@ + gen_node(
                *node,
                old(self).var_offsets@,
                old(self).label as nat,
            ).0 && final(self).label as nat == gen_node(
                *node,
                old(self).var_offsets@,
                old(self).label as nat,
            ).1,
        decreases *node, 1int,
    {
        let ghost offs = old(self).var_offsets@;
        let ghost l0 = old(self).label as nat;
        let ghost base = old(out)@;
        match node {
            Node::Bin { op, lhs, rhs } => {
                if *op == NodeKind::NdAs {
                    proof {
                        lemma_gen_node_label_grows(**rhs, offs, gen_addr(**lhs, offs, l0).1);
                    }
                    self.gen_lval(&**lhs, out)?;
                    self.gen(&**rhs, out)?;
                    out.push(Line::PopReg(Reg::Rdi));
                    out.push(Line::PopReg(Reg::Rax));
                    let t = lhs.check_type();
                    match t {
                        Err(e) => Err(e),
                        Ok(ty) => {
                            if ty.size == 4 {
                                out.push(Line::StoreDword);
                            } else {
                                out.push(Line::StoreQword);
                            }
                            out.push(Line::PushReg(Reg::Rdi));
                            proof {
                                assert(out@ =~= base + gen_node(*node, offs, l0).0);
                            }
                            Ok(())
                        },
                    }
                } else {
                    proof {
                        lemma_gen_node_label_grows(**rhs, offs, gen_node(**lhs, offs, l0).1);
                    }
                    self.gen(&**lhs, out)?;
                    self.gen(&**rhs, out)?;
                    out.push(Line::PopReg(Reg::Rdi));
                    out.push(Line::PopReg(Reg::Rax));
                    match op {
                        NodeKind::NdAdd => out.push(Line::AddRaxRdi),
                        NodeKind::NdSub => out.push(Line::SubRaxRdi),
                        NodeKind::NdMul => out.push(Line::ImulRaxRdi),
                        NodeKind::NdDiv => {
                            out.push(Line::Cqo);
                            out.push(Line::IdivRdi);
                        },
                        NodeKind::NdMt => {
                            out.push(Line::CmpRdiRax);
                            out.push(Line::SetL);
                            out.push(Line::MovzbRaxAl);
                        },
                        NodeKind::NdLt => {
                            out.push(Line::CmpRaxRdi);
                            out.push(Line::SetL);
                            out.push(Line::MovzbRaxAl);
                        },
                        NodeKind::NdOm => {
                            out.push(Line::CmpRdiRax);
                            out.push(Line::SetLe);
                            out.push(Line::MovzbRaxAl);
                        },
                        NodeKind::NdOl => {
                            out.push(Line::CmpRaxRdi);
                            out.push(Line::SetLe);
                            out.push(Line::MovzbRaxAl);
                        },
                        NodeKind::NdEq => {
                            out.push(Line::CmpRaxRdi);
                            out.push(Line::SetE);
                            out.push(Line::MovzbRaxAl);
                        },
                        NodeKind::NdNe => {
                            out.push(Line::CmpRaxRdi);
                            out.push(Line::SetNe);
                            out.push(Line::MovzbRaxAl);
                        },
                        _ => {
                            return Err(
                                CompileError::SemanticError(String::from_str("unknown node")),
                            );
                        },
                    }
                    out.push(Line::PushReg(Reg::Rax));
                    proof {
                        assert(out@ =~= base + gen_node(*node, offs, l0).0);
                    }
                    Ok(())
                }
            },
            _ => {
                proof {
                    assert(false);
                }
                Err(CompileError::SemanticError(String::new()))
            },
        }
    }

    /// Emits an `if`: the condition, the comparison against zero, and
    /// the jumps over the branch bodies, all three labels sharing one
    /// fresh number.
    #[verifier::rlimit(100)]
    fn gen_if(&mut self, node: &Node, out: &mut Vec<Line>) -> (r: Result<(), CompileError>)
        requires
            *node matches Node::If { .. },
            lvars_below(*node, old(self).var_offsets@.len() as nat),
        ensures
            final(self).var_offsets == old(self).var_offsets,
            final(self).label >= old(self).label,
            r is Ok <==> gen_ok(*node) && gen_node(
                *node,
                old(self).var_offsets@,
                old(self).label as nat,
            ).1 <= u32::MAX,
            r is Ok ==> final(out)@ == old(out)@ + gen_node(
                *node,
                old(self).var_offsets@,
                old(self).label as nat,
            ).0 && final(self).label as nat == gen_node(
                *node,
                old(self).var_offsets@,
                old(self).label as nat,
            ).1,
        decreases *node, 1int,
    {
        let ghost offs = old(self).var_offsets@;
        let ghost l0 = old(self).label as nat;
        let ghost base = old(out)@;
        match node {
            Node::If { cond, body, els } => {
                proof {
                    lemma_gen_node_label_grows(**cond, offs, l0 + 1);
                    let l1 = gen_node(**cond, offs, l0 + 1).1;
                    lemma_gen_node_label_grows(**body, offs, l1);
                    let l2 = gen_node(**body, offs, l1).1;
                    match els {
                        Some(e) => {
                            lemma_gen_node_label_grows(**e, offs, l2);
                        },
                        None => {},
                    }
                }
                let label = self.new_label()?;
                self.gen(&**cond, out)?;
                out.push(Line::PopReg(Reg::Rax));
                out.push(Line::CmpRaxZero);
                match els {
                    Some(e) => {
                        out.push(Line::Je(LabelRole::Else, label));
                        self.gen(&**body, out)?;
                        out.push(Line::Jmp(LabelRole::End, label));
                        out.push(Line::LabelDef(LabelRole::Else, label));
                        self.gen(&**e, out)?;
                        out.push(Line::LabelDef(LabelRole::End, label));
                    },
                    None => {
                        out.push(Line::Je(LabelRole::End, label));
                        self.gen(&**body, out)?;
                        out.push(Line::LabelDef(LabelRole::End, label));
                    },
                }
                proof {
                    assert(out@ =~= base + gen_node(*node, offs, l0).0);
                }
                Ok(())
            },
            _ => {
                proof {
                    assert(false);
                }
                Err(CompileError::SemanticError(String::new()))
            },
        }
    }

    /// Emits a `while`: the begin label, the condition with its exit
    /// jump, the body, and the back jump, both labels sharing one fresh
    /// number.
    fn gen_while(&mut self, node: &Node, out: &mut Vec<Line>) -> (r: Result<(), CompileError>)
        requires
            *node matches Node::While { .. },
            lvars_below(*node, old(self).var_offsets@.len() as nat),
        ensures
            final(self).var_offsets == old(self).var_offsets,
            final(self).label >= old(self).label,
            r is Ok <==> gen_ok(*node) && gen_node(
                *node,
                old(self).var_offsets@,
                old(self).label as nat,
            ).1 <= u32::MAX,
            r is Ok ==> final(out)@ == old(out)@ + gen_node(
                *node,
                old(self).var_offsets@,
                old(self).label as nat,
            ).0 && final(self).label as nat == gen_node(
                *node,
                old(self).var_offsets@,
                old(self).label as nat,
            ).1,
        decreases *node, 1int,
    {
        let ghost offs = old(self).var_offsets@;
        let ghost l0 = old(self).label as nat;
        let ghost base = old(out)@;
        match node {
            Node::While { cond, body } => {
                proof {
                    lemma_gen_node_label_grows(**cond, offs, l0 + 1);
                    lemma_gen_node_label_grows(**body, offs, gen_node(**cond, offs, l0 + 1).1);
                }
                let label = self.new_label()?;
                out.push(Line::LabelDef(LabelRole::Begin, label));
                self.gen(&**cond, out)?;
                out.push(Line::PopReg(Reg::Rax));
                out.push(Line::CmpRaxZero);
                out.push(Line::Je(LabelRole::End, label));
                self.gen(&**body, out)?;
                out.push(Line::Jmp(LabelRole::Begin, label));
                out.push(Line::LabelDef(LabelRole::End, label));
                proof {
                    assert(out@ =~= base + gen_node(*node, offs, l0).0);
                }
                Ok(())
            },
            _ => {
                proof {
                    assert(false);
                }
                Err(CompileError::SemanticError(String::new()))
            },
        }
    }

    /// Emits a `for`: the optional initializer, the begin label, the
    /// optional condition with its exit jump, the body, the optional
    /// step, and the back jump, both labels sharing one fresh number.
    #[verifier::rlimit(100)]
    fn gen_for(&mut self, node: &Node, out: &mut Vec<Line>) -> (r: Result<(), CompileError>)
        requires
            *node matches Node::For { .. },
            lvars_below(*node, old(self).var_offsets@.len() as nat),
        ensures
            final(self).var_offsets == old(self).var_offsets,
            final(self).label >= old(self).label,
            r is Ok <==> gen_ok(*node) && gen_node(
                *node,
                old(self).var_offsets@,
                old(self).label as nat,
            ).1 <= u32::MAX,
            r is Ok ==> final(out)@ == old(out)@ + gen_node(
                *node,
                old(self).var_offsets@,
                old(self).label as nat,
            ).0 && final(self).label as nat == gen_node(
                *node,
                old(self).var_offsets@,
                old(self).label as nat,
            ).1,
        decreases *node, 1int,
    {
        let ghost offs = old(self).var_offsets@;
        let ghost l0 = old(self).label as nat;
        let ghost base = old(out)@;
        match node {
            Node::For { preop, cond, postop, body } => {
                proof {
                    let l1 = match preop {
                        Some(p) => {
                            lemma_gen_node_label_grows(**p, offs, l0 + 1);
                            gen_node(**p, offs, l0 + 1).1
                        },
                        None => l0 + 1,
                    };
                    let l2 = match cond {
                        Some(c) => {
                            lemma_gen_node_label_grows(**c, offs, l1);
                            gen_node(**c, offs, l1).1
                        },
                        None => l1,
                    };
                    lemma_gen_node_label_grows(**body, offs, l2);
                    let l3 = gen_node(**body, offs, l2).1;
                    match postop {
                        Some(q) => {
                            lemma_gen_node_label_grows(**q, offs, l3);
                        },
                        None => {},
                    }
                }
                let label = self.new_label()?;
                match preop {
                    Some(p) => {
                        self.gen(&**p, out)?;
                    },
                    None => {},
                }
                out.push(Line::LabelDef(LabelRole::Begin, label));
                match cond {
                    Some(c) => {
                        self.gen(&**c, out)?;
                        out.push(Line::PopReg(Reg::Rax));
                        out.push(Line::CmpRaxZero);
                        out.push(Line::Je(LabelRole::End, label));
                    },
                    None => {},
                }
                self.gen(&**body, out)?;
                match postop {
                    Some(q) => {
                        self.gen(&**q, out)?;
                    },
                    None => {},
                }
                out.push(Line::Jmp(LabelRole::Begin, label));
                out.push(Line::LabelDef(LabelRole::End, label));
                proof {
                    assert(out@ =~= base + gen_node(*node, offs, l0).0);
                }
                Ok(())
            },
            _ => {
                proof {
                    assert(false);
                }
                Err(CompileError::SemanticError(String::new()))
            },
        }
    }

    /// Emits a block: each inner statement in order, the stack top
    /// popped and discarded after each one.
    #[verifier::loop_isolation(false)]
    fn gen_block(&mut self, node: &Node, out: &mut Vec<Line>) -> (r: Result<(), CompileError>)
        requires
            *node matches Node::Block { .. },
            lvars_below(*node, old(self).var_offsets@.len() as nat),
        ensures
            final(self).var_offsets == old(self).var_offsets,
            final(self).label >= old(self).label,
            r is Ok <==> gen_ok(*node) && gen_node(
                *node,
                old(self).var_offsets@,
                old(self).label as nat,
            ).1 <= u32::MAX,
            r is Ok ==> final(out)@ == old(out)@ + gen_node(
                *node,
                old(self).var_offsets@,
                old(self).label as nat,
            ).0 && final(self).label as nat == gen_node(
                *node,
                old(self).var_offsets@,
                old(self).label as nat,
            ).1,
        decreases *node, 1int,
    {
        let ghost offs = old(self).var_offsets@;
        let ghost l0 = old(self).label as nat;
        let ghost base = old(out)@;
        match node {
            Node::Block { blocks } => {
                let ghost s = blocks@;
                proof {
                    assert(s.subrange(0, s.len() as int) =~= s);
                }
                let mut i: usize = 0;
                while i < blocks.len()
                    invariant
                        i <= blocks.len(),
                        s == blocks@,
                        self.var_offsets == old(self).var_offsets,
                        self.label as nat >= l0,
                        out@ + gen_stmts(
                            s.subrange(i as int, s.len() as int),
                            offs,
                            self.label as nat,
                        ).0 == base + gen_stmts(s, offs, l0).0,
                        gen_stmts(s.subrange(i as int, s.len() as int), offs, self.label as nat).1
                            == gen_stmts(s, offs, l0).1,
                        all_gen_ok(s) <==> all_gen_ok(s.subrange(i as int, s.len() as int)),
                        all_lvars_below(s.subrange(i as int, s.len() as int), offs.len() as nat),
                    decreases blocks.len() - i,
                {
                    let ghost lcur = self.label as nat;
                    let ghost sub = s.subrange(i as int, s.len() as int);
                    proof {
                        assert(*blocks == (*node)->Block_blocks);
                        assert(decreases_to!(*node => (*node)->Block_blocks));
                        assert(decreases_to!(*blocks => blocks@[i as int]));
                        assert(sub[0] == s[i as int]);
                        assert(sub.subrange(1, sub.len() as int) =~= s.subrange(
                            i as int + 1,
                            s.len() as int,
                        ));
                        lemma_gen_stmts_label_grows(
                            s.subrange(i as int + 1, s.len() as int),
                            offs,
                            gen_node(s[i as int], offs, lcur).1,
                        );
                    }
                    let r = self.gen(&blocks[i], out);
                    match r {
                        Err(e) => {
                            return Err(e);
                        },
                        Ok(()) => {},
                    }
                    out.push(Line::PopReg(Reg::Rax));
                    proof {
                        assert(out@ + gen_stmts(
                            s.subrange(i as int + 1, s.len() as int),
                            offs,
                            self.label as nat,
                        ).0 =~= base + gen_stmts(s, offs, l0).0);
                    }
                    i = i + 1;
                }
                proof {
                    assert(s.subrange(s.len() as int, s.len() as int) =~= Seq::<Node>::empty());
                    assert(out@ =~= base + gen_stmts(s, offs, l0).0);
                    assert(out@ =~= base + gen_node(*node, offs, l0).0);
                }
                Ok(())
            },
            _ => {
                proof {
                    assert(false);
                }
                Err(CompileError::SemanticError(String::new()))
            },
        }
    }

    /// Emits a call: the arguments left to right, the pops into the
    /// argument registers in reverse order, the call, and the push of
    /// the returned value.
    #[verifier::loop_isolation(false)]
    fn gen_call(&mut self, node: &Node, out: &mut Vec<Line>) -> (r: Result<(), CompileError>)
        requires
            *node matches Node::Func { .. },
            lvars_below(*node, old(self).var_offsets@.len() as nat),
        ensures
            final(self).var_offsets == old(self).var_offsets,
            final(self).label >= old(self).label,
            r is Ok <==> gen_ok(*node) && gen_node(
                *node,
                old(self).var_offsets@,
                old(self).label as nat,
            ).1 <= u32::MAX,
            r is Ok ==> final(out)@ == old(out)@ + gen_node(
                *node,
                old(self).var_offsets@,
                old(self).label as nat,
            ).0 && final(self).label as nat == gen_node(
                *node,
                old(self).var_offsets@,
                old(self).label as nat,
            ).1,
        decreases *node, 1int,
    {
        let ghost offs = old(self).var_offsets@;
        let ghost l0 = old(self).label as nat;
        let ghost base = old(out)@;
        match node {
            Node::Func { funcname, args } => {
                if args.len() > 6 {
                    return Err(
                        CompileError::SemanticError(
                            String::from_str("too many arguments in a call"),
                        ),
                    );
                }
                let ghost s = args@;
                proof {
                    assert(s.subrange(0, s.len() as int) =~= s);
                }
                let mut i: usize = 0;
                while i < args.len()
                    invariant
                        i <= args.len(),
                        s == args@,
                        args@.len() <= 6,
                        self.var_offsets == old(self).var_offsets,
                        self.label as nat >= l0,
                        out@ + gen_args(
                            s.subrange(i as int, s.len() as int),
                            offs,
                            self.label as nat,
                        ).0 == base + gen_args(s, offs, l0).0,
                        gen_args(s.subrange(i as int, s.len() as int), offs, self.label as nat).1
                            == gen_args(s, offs, l0).1,
                        all_gen_ok(s) <==> all_gen_ok(s.subrange(i as int, s.len() as int)),
                        all_lvars_below(s.subrange(i as int, s.len() as int), offs.len() as nat),
                    decreases args.len() - i,
                {
                    let ghost lcur = self.label as nat;
                    let ghost sub = s.subrange(i as int, s.len() as int);
                    proof {
                        assert(*args == (*node)->Func_args);
                        assert(decreases_to!(*node => (*node)->Func_args));
                        assert(decreases_to!(*args => args@[i as int]));
                        assert(sub[0] == s[i as int]);
                        assert(sub.subrange(1, sub.len() as int) =~= s.subrange(
                            i as int + 1,
                            s.len() as int,
                        ));
                        lemma_gen_args_label_grows(
                            s.subrange(i as int + 1, s.len() as int),
                            offs,
                            gen_node(s[i as int], offs, lcur).1,
                        );
                    }
                    let r = self.gen(&args[i], out);
                    match r {
                        Err(e) => {
                            return Err(e);
                        },
                        Ok(()) => {},
                    }
                    proof {
                        assert(out@ + gen_args(
                            s.subrange(i as int + 1, s.len() as int),
                            offs,
                            self.label as nat,
                        ).0 =~= base + gen_args(s, offs, l0).0);
                    }
                    i = i + 1;
                }
                proof {
                    assert(s.subrange(s.len() as int, s.len() as int) =~= Seq::<Node>::empty());
                    assert(out@ =~= base + gen_args(s, offs, l0).0);
                }
                let ghost mid = out@;
                let n_args = args.len();
                let mut k = n_args;
                proof {
                    assert(pop_args(n_args as int).subrange(0, 0) =~= Seq::<Line>::empty());
                    assert(out@ =~= mid + pop_args(n_args as int).subrange(0, 0));
                }
                while k > 0
                    invariant
                        k <= n_args,
                        n_args == s.len(),
                        n_args <= 6,
                        self.var_offsets == old(self).var_offsets,
                        self.label as nat == gen_args(s, offs, l0).1,
                        out@ == mid + pop_args(n_args as int).subrange(0, (n_args - k) as int),
                    decreases k,
                {
                    let reg = arg_reg8_at(k - 1);
                    out.push(Line::PopReg(reg));
                    proof {
                        let j = (n_args - k) as int;
                        assert(pop_args(n_args as int)[j] == Line::PopReg(
                            arg_reg8(n_args as int - 1 - j),
                        ));
                        assert(out@ =~= mid + pop_args(n_args as int).subrange(0, j + 1));
                    }
                    k = k - 1;
                }
                out.push(Line::Call((*funcname).clone()));
                out.push(Line::PushReg(Reg::Rax));
                proof {
                    assert(pop_args(n_args as int).subrange(0, n_args as int) =~= pop_args(
                        n_args as int,
                    ));
                    assert(out@ =~= base + gen_node(*node, offs, l0).0);
                }
                Ok(())
            },
            _ => {
                proof {
                    assert(false);
                }
                Err(CompileError::SemanticError(String::new()))
            },
        }
    }

}



// ---------------------------------------------------------------------
// Whole functions and the whole program
// ---------------------------------------------------------------------

/// True when the function's frame, together with the 16 bytes of
/// alignment headroom, fits in the address space.
pub open spec fn layout_fits(f: Function) -> bool {
    suffix_size(f.locals@, 0) + 16 <= usize::MAX
}

/// True when every function's frame fits.
pub open spec fn program_layout_fits(funcs: Seq<Function>) -> bool {
    forall|i: int| 0 <= i < funcs.len() ==> layout_fits(#[trigger] funcs[i])
}

/// Suffix sums only shrink as the start index grows.
pub proof fn lemma_suffix_size_monotone(locals: Seq<LVar>, j: int, i: int)
    requires
        0 <= j <= i,
    ensures
        suffix_size(locals, i) <= suffix_size(locals, j),
    decreases i - j,
{
    if j < i {
        lemma_suffix_size_monotone(locals, j + 1, i);
    }
}

/// Generating a function list leaves the label counter no smaller.
proof fn lemma_gen_program_label_grows(funcs: Seq<Function>, l: nat)
    ensures
        gen_program(funcs, l).1 >= l,
    decreases funcs,
{
    if funcs.len() > 0 {
        lemma_gen_stmts_label_grows(funcs[0].body@, offsets_of(funcs[0].locals@), l);
        lemma_gen_program_label_grows(
            funcs.subrange(1, funcs.len() as int),
            gen_function(funcs[0], l).1,
        );
    }
}

impl Generator {
    /// Emits one function: directives, the frame layout with its
    /// comments, the prologue, the parameter stores, the body with a
    /// pop after each statement, and the epilogue.
    #[verifier::loop_isolation(false)]
    #[verifier::rlimit(100)]
    fn gen_fn(&mut self, f: &Function, lines: &mut Vec<Line>) -> (r: Result<(), CompileError>)
        requires
            f.wf(),
        ensures
            final(self).label >= old(self).label,
            r is Ok <==> all_gen_ok(f.body@) && f.paramnum <= 6 && layout_fits(*f)
                && gen_function(*f, old(self).label as nat).1 <= u32::MAX,
            r is Ok ==> final(lines)@ == old(lines)@ + gen_function(
                *f,
                old(self).label as nat,
            ).0 && final(self).label as nat == gen_function(*f, old(self).label as nat).1,
    {
        let ghost l0 = old(self).label as nat;
        let ghost base = old(lines)@;
        let ghost locs = f.locals@;
        let ghost offs = offsets_of(f.locals@);
        proof {
            lemma_gen_stmts_label_grows(f.body@, offs, l0);
        }
        lines.push(Line::Global(f.name.clone()));
        lines.push(Line::FnLabel(f.name.clone()));

        // Reverse scan over the locals: the layout comments and the
        // running size total, which is each local's frame offset.
        let n_loc = f.locals.len();
        let mut rev_offs: Vec<usize> = Vec::new();
        let mut stack_size: usize = 0;
        let mut i = n_loc;
        while i > 0
            invariant
                i <= n_loc,
                stack_size == suffix_size(locs, i as int),
                stack_size + 16 <= usize::MAX,
                rev_offs@.len() == n_loc - i,
                forall|j: int|
                    0 <= j < rev_offs@.len() ==> rev_offs@[j] == suffix_size(
                        locs,
                        n_loc - 1 - j,
                    ) as usize,
                lines@ == base + seq![
                    Line::Global(f.name),
                    Line::FnLabel(f.name),
                ] + comment_lines(locs).subrange(0, (n_loc - i) as int),
            decreases i,
        {
            i = i - 1;
            lines.push(Line::LocalComment(f.locals[i].name.clone()));
            let sz = f.locals[i].ty.size;
            if sz > usize::MAX - 16 - stack_size {
                proof {
                    lemma_suffix_size_monotone(locs, 0, i as int);
                }
                return Err(
                    CompileError::SemanticError(String::from_str("stack frame too large")),
                );
            }
            stack_size = stack_size + sz;
            rev_offs.push(stack_size);
            proof {
                assert(comment_lines(locs)[(n_loc - 1 - i) as int] == Line::LocalComment(
                    locs[i as int].name,
                ));
                assert(lines@ =~= base + seq![
                    Line::Global(f.name),
                    Line::FnLabel(f.name),
                ] + comment_lines(locs).subrange(0, (n_loc - i) as int));
            }
        }
        proof {
            assert(comment_lines(locs).subrange(0, n_loc as int) =~= comment_lines(locs));
        }

        // The offsets by frame index.
        let mut offsets: Vec<usize> = Vec::new();
        let mut j = n_loc;
        while j > 0
            invariant
                j <= n_loc,
                rev_offs@.len() == n_loc,
                forall|m: int|
                    0 <= m < n_loc ==> rev_offs@[m] == suffix_size(locs, n_loc - 1 - m) as usize,
                offsets@.len() == n_loc - j,
                forall|m: int|
                    0 <= m < offsets@.len() ==> offsets@[m] == suffix_size(locs, m) as usize,
            decreases j,
        {
            j = j - 1;
            offsets.push(rev_offs[j]);
        }
        proof {
            assert(offsets@ =~= offs);
        }

        // Prologue.
        lines.push(Line::PushReg(Reg::Rbp));
        lines.push(Line::MovRegReg(Reg::Rbp, Reg::Rsp));
        let frame = align(stack_size, 16);
        lines.push(Line::SubRegImm(Reg::Rsp, frame));

        // Parameter stores.
        if f.paramnum > 6 {
            return Err(
                CompileError::SemanticError(String::from_str("too many parameters")),
            );
        }
        let ghost after_prologue = lines@;
        let mut n: usize = 0;
        while n < f.paramnum
            invariant
                n <= f.paramnum,
                lines@ == after_prologue + param_stores(*f).subrange(0, n as int),
            decreases f.paramnum - n,
        {
            let reg = if f.locals[n].ty.size == 4 {
                arg_reg4_at(n)
            } else {
                arg_reg8_at(n)
            };
            lines.push(Line::MovToFrame(offsets[n], reg));
            proof {
                assert(param_stores(*f)[n as int] == Line::MovToFrame(
                    offs[n as int],
                    if locs[n as int].ty.size == 4 {
                        arg_reg4(n as int)
                    } else {
                        arg_reg8(n as int)
                    },
                ));
                assert(lines@ =~= after_prologue + param_stores(*f).subrange(0, n as int + 1));
            }
            n = n + 1;
        }
        proof {
            assert(param_stores(*f).subrange(0, f.paramnum as int) =~= param_stores(*f));
        }

        // Body, with a pop after each statement.
        self.var_offsets = offsets;
        let ghost s = f.body@;
        let ghost before_body = lines@;
        proof {
            assert(s.subrange(0, s.len() as int) =~= s);
        }
        let mut si: usize = 0;
        while si < f.body.len()
            invariant
                si <= f.body.len(),
                self.var_offsets@ == offs,
                self.label as nat >= l0,
                lines@ + gen_stmts(s.subrange(si as int, s.len() as int), offs, self.label as nat).0
                    == before_body + gen_stmts(s, offs, l0).0,
                gen_stmts(s.subrange(si as int, s.len() as int), offs, self.label as nat).1
                    == gen_stmts(s, offs, l0).1,
                all_gen_ok(s) <==> all_gen_ok(s.subrange(si as int, s.len() as int)),
            decreases f.body.len() - si,
        {
            let ghost lcur = self.label as nat;
            let ghost sub = s.subrange(si as int, s.len() as int);
            proof {
                assert(sub[0] == s[si as int]);
                assert(sub.subrange(1, sub.len() as int) =~= s.subrange(
                    si as int + 1,
                    s.len() as int,
                ));
                lemma_gen_stmts_label_grows(
                    s.subrange(si as int + 1, s.len() as int),
                    offs,
                    gen_node(s[si as int], offs, lcur).1,
                );
            }
            let r = self.gen(&f.body[si], &mut *lines);
            match r {
                Err(e) => {
                    return Err(e);
                },
                Ok(()) => {},
            }
            lines.push(Line::PopReg(Reg::Rax));
            proof {
                assert(lines@ + gen_stmts(
                    s.subrange(si as int + 1, s.len() as int),
                    offs,
                    self.label as nat,
                ).0 =~= before_body + gen_stmts(s, offs, l0).0);
            }
            si = si + 1;
        }
        proof {
            assert(s.subrange(s.len() as int, s.len() as int) =~= Seq::<Node>::empty());
            assert(lines@ =~= before_body + gen_stmts(s, offs, l0).0);
        }

        // Epilogue.
        lines.push(Line::MovRegReg(Reg::Rsp, Reg::Rbp));
        lines.push(Line::PopReg(Reg::Rbp));
        lines.push(Line::Ret);
        proof {
            assert(lines@ =~= base + gen_function(*f, l0).0);
        }
        Ok(())
    }

    /// Translates the parsed function list into the complete assembly
    /// text: the syntax directive, then each function in order, the
    /// label counter threaded through the whole program.
    ///
    /// Succeeds exactly when every function generates without a
    /// diagnostic (every assignment target and address-of operand an
    /// lvalue, every consulted dereference pointer-typed, at most six
    /// parameters and six call arguments), every frame fits, and the
    /// label counter does not overflow; the returned text is then
    /// exactly the rendering of the specified line sequence.
    #[verifier::loop_isolation(false)]
    pub fn codegen(&mut self, parser: Parser) -> (r: Result<String, CompileError>)
        requires
            forall|i: int|
                0 <= i < parser.functions@.len() ==> (#[trigger] parser.functions@[i]).wf(),
        ensures
            r is Ok <==> program_ok(parser.functions@) && program_layout_fits(parser.functions@)
                && gen_program(parser.functions@, old(self).label as nat).1 <= u32::MAX,
            r matches Ok(s) ==> s@ == lines_str(
                gen_output(parser.functions@, old(self).label as nat),
            ),
    {
        let ghost l0 = old(self).label as nat;
        let ghost fs = parser.functions@;
        let mut lines: Vec<Line> = Vec::new();
        lines.push(Line::IntelSyntax);
        let ghost base = lines@;
        proof {
            assert(fs.subrange(0, fs.len() as int) =~= fs);
        }
        let mut fi: usize = 0;
        while fi < parser.functions.len()
            invariant
                fi <= parser.functions.len(),
                self.label as nat >= l0,
                lines@ + gen_program(fs.subrange(fi as int, fs.len() as int), self.label as nat).0
                    == base + gen_program(fs, l0).0,
                gen_program(fs.subrange(fi as int, fs.len() as int), self.label as nat).1
                    == gen_program(fs, l0).1,
                forall|i: int|
                    0 <= i < fi ==> {
                        &&& all_gen_ok((#[trigger] fs[i]).body@)
                        &&& fs[i].paramnum <= 6
                        &&& layout_fits(fs[i])
                    },
            decreases parser.functions.len() - fi,
        {
            let ghost lcur = self.label as nat;
            let ghost sub = fs.subrange(fi as int, fs.len() as int);
            proof {
                assert(sub[0] == fs[fi as int]);
                assert(sub.subrange(1, sub.len() as int) =~= fs.subrange(
                    fi as int + 1,
                    fs.len() as int,
                ));
                lemma_gen_program_label_grows(
                    fs.subrange(fi as int + 1, fs.len() as int),
                    gen_function(fs[fi as int], lcur).1,
                );
            }
            let r = self.gen_fn(&parser.functions[fi], &mut lines);
            match r {
                Err(e) => {
                    return Err(e);
                },
                Ok(()) => {},
            }
            proof {
                assert(lines@ + gen_program(
                    fs.subrange(fi as int + 1, fs.len() as int),
                    self.label as nat,
                ).0 =~= base + gen_program(fs, l0).0);
            }
            fi = fi + 1;
        }
        proof {
            assert(fs.subrange(fs.len() as int, fs.len() as int) =~= Seq::<Function>::empty());
            assert(lines@ =~= base + gen_program(fs, l0).0);
            assert(lines@ =~= gen_output(fs, l0));
        }
        let text = render_lines(&lines);
        Ok(text)
    }
}

} // verus!

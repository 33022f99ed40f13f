//! The laws of the generated code.
//!
//! These proof functions state, over the specification of the
//! translation in `codegen`, what holds of every emitted program: the
//! stack-machine discipline (every expression's code pushes exactly one
//! value net), the frame layout (offsets are the suffix sums of the
//! local sizes, the frame is the 16-byte alignment of their total), and
//! the label discipline (the counter only grows, the labels of one
//! control construct share one number, and the label definitions of a
//! whole program are pairwise distinct).

use vstd::prelude::*;

use crate::codegen::{
    arg_reg4, arg_reg8, comment_lines, epilogue, gen_addr, gen_args, gen_function, gen_node,
    gen_program, gen_stmts, lemma_gen_args_label_grows, lemma_gen_node_label_grows,
    lemma_gen_stmts_label_grows, offsets_of, op_lines, pop_args, param_stores, spec_align,
    suffix_size, addr_ok, all_gen_ok, gen_ok, LabelRole, Line, Reg,
};
use crate::parse::{
    all_expr_trees, all_stmt_trees, expr_tree, stmt_tree, Function, Node, NodeKind,
};
use crate::types::TypeKind;

verus! {

// ---------------------------------------------------------------------
// The stack-machine discipline
// ---------------------------------------------------------------------

/// How one line moves the evaluation stack: pushes count one up, pops
/// one down, everything else leaves it alone.
pub open spec fn sm_delta(line: Line) -> int {
    match line {
        Line::PushImm(_) => 1,
        Line::PushReg(_) => 1,
        Line::PopReg(_) => -1,
        _ => 0,
    }
}

/// The net stack movement of a line sequence.
pub open spec fn sm_sum(ls: Seq<Line>) -> int
    decreases ls,
{
    if ls.len() == 0 {
        0
    } else {
        sm_delta(ls[0]) + sm_sum(ls.subrange(1, ls.len() as int))
    }
}

/// The net movement of a concatenation is the sum of the parts'.
pub proof fn lemma_sm_sum_concat(a: Seq<Line>, b: Seq<Line>)
    ensures
        sm_sum(a + b) == sm_sum(a) + sm_sum(b),
    decreases a,
{
    if a.len() == 0 {
        assert(a + b =~= b);
    } else {
        assert((a + b)[0] == a[0]);
        assert((a + b).subrange(1, (a + b).len() as int) =~= a.subrange(1, a.len() as int) + b);
        lemma_sm_sum_concat(a.subrange(1, a.len() as int), b);
    }
}

/// The net movement of a singleton.
proof fn lemma_sm_sum1(a: Line)
    ensures
        sm_sum(seq![a]) == sm_delta(a),
{
    reveal_with_fuel(sm_sum, 2);
    assert(seq![a].subrange(1, 1) =~= Seq::<Line>::empty());
}

/// The net movement of a two-line sequence.
proof fn lemma_sm_sum2(a: Line, b: Line)
    ensures
        sm_sum(seq![a, b]) == sm_delta(a) + sm_delta(b),
{
    assert(seq![a, b].subrange(1, 2) =~= seq![b]);
    lemma_sm_sum1(b);
}

/// The net movement of a three-line sequence.
proof fn lemma_sm_sum3(a: Line, b: Line, c: Line)
    ensures
        sm_sum(seq![a, b, c]) == sm_delta(a) + sm_delta(b) + sm_delta(c),
{
    assert(seq![a, b, c].subrange(1, 3) =~= seq![b, c]);
    lemma_sm_sum2(b, c);
}

/// The net movement of a four-line sequence.
proof fn lemma_sm_sum4(a: Line, b: Line, c: Line, d: Line)
    ensures
        sm_sum(seq![a, b, c, d]) == sm_delta(a) + sm_delta(b) + sm_delta(c) + sm_delta(d),
{
    assert(seq![a, b, c, d].subrange(1, 4) =~= seq![b, c, d]);
    lemma_sm_sum3(b, c, d);
}

/// An operator's instruction lines neither push nor pop.
proof fn lemma_op_lines_sum(op: NodeKind)
    ensures
        sm_sum(op_lines(op)) == 0,
{
    match op {
        NodeKind::NdAdd => lemma_sm_sum1(Line::AddRaxRdi),
        NodeKind::NdSub => lemma_sm_sum1(Line::SubRaxRdi),
        NodeKind::NdMul => lemma_sm_sum1(Line::ImulRaxRdi),
        NodeKind::NdDiv => lemma_sm_sum2(Line::Cqo, Line::IdivRdi),
        NodeKind::NdMt => lemma_sm_sum3(Line::CmpRdiRax, Line::SetL, Line::MovzbRaxAl),
        NodeKind::NdLt => lemma_sm_sum3(Line::CmpRaxRdi, Line::SetL, Line::MovzbRaxAl),
        NodeKind::NdOm => lemma_sm_sum3(Line::CmpRdiRax, Line::SetLe, Line::MovzbRaxAl),
        NodeKind::NdOl => lemma_sm_sum3(Line::CmpRaxRdi, Line::SetLe, Line::MovzbRaxAl),
        NodeKind::NdEq => lemma_sm_sum3(Line::CmpRaxRdi, Line::SetE, Line::MovzbRaxAl),
        NodeKind::NdNe => lemma_sm_sum3(Line::CmpRaxRdi, Line::SetNe, Line::MovzbRaxAl),
        _ => {},
    }
}

/// The pops that move `k` arguments into registers take `k` values off
/// the stack.
proof fn lemma_pop_args_sum(k: int)
    requires
        k >= 0,
    ensures
        sm_sum(pop_args(k)) == -k,
    decreases k,
{
    if k == 0 {
        assert(pop_args(0) =~= Seq::<Line>::empty());
    } else {
        assert(pop_args(k).subrange(1, k) =~= pop_args(k - 1));
        lemma_pop_args_sum(k - 1);
    }
}

/// Every expression's generated code leaves exactly one value on the
/// evaluation stack, and an lvalue's address computation likewise
/// leaves exactly its one address.
#[verifier::rlimit(100)]
pub proof fn lemma_expr_stack_one(n: Node, offs: Seq<usize>, l: nat)
    requires
        expr_tree(n),
    ensures
        gen_ok(n) ==> sm_sum(gen_node(n, offs, l).0) == 1,
        addr_ok(n) ==> sm_sum(gen_addr(n, offs, l).0) == 1,
    decreases n,
{
    reveal_with_fuel(sm_sum, 6);
    match n {
        Node::Num { .. } => {
            lemma_sm_sum1(gen_node(n, offs, l).0[0]);
            assert(gen_node(n, offs, l).0 =~= seq![gen_node(n, offs, l).0[0]]);
        },
        Node::Lv { lvar } => {
            let pl = gen_addr(n, offs, l).0;
            lemma_sm_sum3(pl[0], pl[1], pl[2]);
            assert(pl =~= seq![pl[0], pl[1], pl[2]]);
            if lvar.ty.kind != TypeKind::TyArr {
                let tail = seq![
                    Line::PopReg(Reg::Rax),
                    crate::codegen::load_line(lvar.ty.size),
                    Line::PushReg(Reg::Rax),
                ];
                lemma_sm_sum_concat(pl, tail);
                lemma_sm_sum3(tail[0], tail[1], tail[2]);
                assert(tail =~= seq![tail[0], tail[1], tail[2]]);
            }
        },
        Node::Addr { lhs } => {
            lemma_expr_stack_one(*lhs, offs, l);
        },
        Node::Deref { lhs } => {
            lemma_expr_stack_one(*lhs, offs, l);
            if gen_ok(n) {
                let cl = gen_node(*lhs, offs, l).0;
                if crate::parse::ty_of(n).kind != TypeKind::TyArr {
                    let tail = seq![
                        Line::PopReg(Reg::Rax),
                        crate::codegen::load_line(crate::parse::ty_of(n).size),
                        Line::PushReg(Reg::Rax),
                    ];
                    lemma_sm_sum_concat(cl, tail);
                    lemma_sm_sum3(tail[0], tail[1], tail[2]);
                    assert(tail =~= seq![tail[0], tail[1], tail[2]]);
                }
            }
        },
        Node::Bin { op, lhs, rhs } => {
            lemma_expr_stack_one(*lhs, offs, l);
            if op == NodeKind::NdAs {
                let l1 = gen_addr(*lhs, offs, l).1;
                lemma_expr_stack_one(*rhs, offs, l1);
                if gen_ok(n) {
                    let al = gen_addr(*lhs, offs, l).0;
                    let rl = gen_node(*rhs, offs, l1).0;
                    let tail = seq![
                        Line::PopReg(Reg::Rdi),
                        Line::PopReg(Reg::Rax),
                        crate::codegen::store_line(crate::parse::ty_of(n).size),
                        Line::PushReg(Reg::Rdi),
                    ];
                    lemma_sm_sum4(tail[0], tail[1], tail[2], tail[3]);
                    assert(tail =~= seq![tail[0], tail[1], tail[2], tail[3]]);
                    lemma_sm_sum_concat(al, rl);
                    lemma_sm_sum_concat(al + rl, tail);
                    assert(gen_node(n, offs, l).0 == al + rl + tail);
                }
            } else {
                let l1 = gen_node(*lhs, offs, l).1;
                lemma_expr_stack_one(*rhs, offs, l1);
                if gen_ok(n) {
                    let ll = gen_node(*lhs, offs, l).0;
                    let rl = gen_node(*rhs, offs, l1).0;
                    let pops = seq![Line::PopReg(Reg::Rdi), Line::PopReg(Reg::Rax)];
                    let push = seq![Line::PushReg(Reg::Rax)];
                    lemma_sm_sum2(Line::PopReg(Reg::Rdi), Line::PopReg(Reg::Rax));
                    lemma_sm_sum1(Line::PushReg(Reg::Rax));
                    assert(push =~= seq![Line::PushReg(Reg::Rax)]);
                    lemma_op_lines_sum(op);
                    lemma_sm_sum_concat(ll, rl);
                    lemma_sm_sum_concat(ll + rl, pops);
                    lemma_sm_sum_concat(ll + rl + pops, op_lines(op));
                    lemma_sm_sum_concat(ll + rl + pops + op_lines(op), push);
                    assert(gen_node(n, offs, l).0 == ll + rl + pops + op_lines(op) + push);
                }
            }
        },
        Node::Func { funcname, args } => {
            lemma_args_stack(args@, offs, l);
            if gen_ok(n) {
                let al = gen_args(args@, offs, l).0;
                let k = args@.len() as int;
                let tail = seq![Line::Call(funcname), Line::PushReg(Reg::Rax)];
                lemma_sm_sum2(tail[0], tail[1]);
                assert(tail =~= seq![tail[0], tail[1]]);
                lemma_pop_args_sum(k);
                lemma_sm_sum_concat(al, pop_args(k));
                lemma_sm_sum_concat(al + pop_args(k), tail);
                assert(gen_node(n, offs, l).0 == al + pop_args(k) + tail);
            }
        },
        _ => {},
    }
}

/// The code of an argument list leaves one value per argument.
pub proof fn lemma_args_stack(s: Seq<Node>, offs: Seq<usize>, l: nat)
    requires
        all_expr_trees(s),
    ensures
        all_gen_ok(s) ==> sm_sum(gen_args(s, offs, l).0) == s.len(),
    decreases s,
{
    if s.len() > 0 {
        lemma_expr_stack_one(s[0], offs, l);
        let l1 = gen_node(s[0], offs, l).1;
        lemma_args_stack(s.subrange(1, s.len() as int), offs, l1);
        if all_gen_ok(s) {
            lemma_sm_sum_concat(
                gen_node(s[0], offs, l).0,
                gen_args(s.subrange(1, s.len() as int), offs, l1).0,
            );
        }
    }
}

/// What each statement's generated code leaves on the evaluation stack:
/// one value for an expression statement; whatever its branch bodies
/// leave for `if` and `while`; one extra value for each of a `for`
/// header's initializer and step expressions, which the generator never
/// pops; one value fewer per inner statement than those statements
/// leave for a block, whose generator pops after each inner statement;
/// and minus one for `return`, whose epilogue pops the saved frame
/// pointer after consuming the value.
pub open spec fn stmt_delta(n: Node) -> int
    decreases n,
{
    match n {
        Node::If { cond, body, els } => stmt_delta(*body) + (match els {
            Some(e) => stmt_delta(*e),
            None => 0,
        }),
        Node::While { cond, body } => stmt_delta(*body),
        Node::For { preop, cond, postop, body } => (if preop is Some {
            1int
        } else {
            0int
        }) + stmt_delta(*body) + (if postop is Some {
            1int
        } else {
            0int
        }),
        Node::Block { blocks } => stmts_delta(blocks@),
        Node::Rt { .. } => -1,
        _ => 1,
    }
}

/// The sum of `stmt_delta` minus one over a block's statements: each
/// inner statement is followed by one pop.
pub open spec fn stmts_delta(s: Seq<Node>) -> int
    decreases s,
{
    if s.len() == 0 {
        0
    } else {
        stmt_delta(s[0]) - 1 + stmts_delta(s.subrange(1, s.len() as int))
    }
}

/// The exact stack accounting of every statement: its generated code
/// leaves `stmt_delta` values on the evaluation stack. In particular an
/// expression statement leaves exactly the one value that the driver's
/// per-statement pop consumes, and a block of expression statements
/// leaves none.
#[verifier::rlimit(100)]
pub proof fn lemma_stmt_stack(n: Node, offs: Seq<usize>, l: nat)
    requires
        stmt_tree(n),
        gen_ok(n),
    ensures
        sm_sum(gen_node(n, offs, l).0) == stmt_delta(n),
    decreases n,
{
    reveal_with_fuel(sm_sum, 6);
    match n {
        Node::If { cond, body, els } => {
            lemma_expr_stack_one(*cond, offs, l + 1);
            let cl = gen_node(*cond, offs, l + 1).0;
            let l1 = gen_node(*cond, offs, l + 1).1;
            lemma_stmt_stack(*body, offs, l1);
            let bl = gen_node(*body, offs, l1).0;
            let l2 = gen_node(*body, offs, l1).1;
            match els {
                Some(e) => {
                    lemma_stmt_stack(*e, offs, l2);
                    let el = gen_node(*e, offs, l2).0;
                    let m1 = seq![
                        Line::PopReg(Reg::Rax),
                        Line::CmpRaxZero,
                        Line::Je(LabelRole::Else, l as u32),
                    ];
                    let m2 = seq![
                        Line::Jmp(LabelRole::End, l as u32),
                        Line::LabelDef(LabelRole::Else, l as u32),
                    ];
                    let m3 = seq![Line::LabelDef(LabelRole::End, l as u32)];
                    lemma_sm_sum3(m1[0], m1[1], m1[2]);
                    assert(m1 =~= seq![m1[0], m1[1], m1[2]]);
                    lemma_sm_sum2(m2[0], m2[1]);
                    assert(m2 =~= seq![m2[0], m2[1]]);
                    lemma_sm_sum1(Line::LabelDef(LabelRole::End, l as u32));
                    lemma_sm_sum_concat(cl, m1);
                    lemma_sm_sum_concat(cl + m1, bl);
                    lemma_sm_sum_concat(cl + m1 + bl, m2);
                    lemma_sm_sum_concat(cl + m1 + bl + m2, el);
                    lemma_sm_sum_concat(cl + m1 + bl + m2 + el, m3);
                    assert(gen_node(n, offs, l).0 == cl + m1 + bl + m2 + el + m3);
                },
                None => {
                    let m1 = seq![
                        Line::PopReg(Reg::Rax),
                        Line::CmpRaxZero,
                        Line::Je(LabelRole::End, l as u32),
                    ];
                    let m3 = seq![Line::LabelDef(LabelRole::End, l as u32)];
                    lemma_sm_sum3(m1[0], m1[1], m1[2]);
                    assert(m1 =~= seq![m1[0], m1[1], m1[2]]);
                    lemma_sm_sum1(Line::LabelDef(LabelRole::End, l as u32));
                    lemma_sm_sum_concat(cl, m1);
                    lemma_sm_sum_concat(cl + m1, bl);
                    lemma_sm_sum_concat(cl + m1 + bl, m3);
                    assert(gen_node(n, offs, l).0 == cl + m1 + bl + m3);
                },
            }
        },
        Node::While { cond, body } => {
            lemma_expr_stack_one(*cond, offs, l + 1);
            let cl = gen_node(*cond, offs, l + 1).0;
            let l1 = gen_node(*cond, offs, l + 1).1;
            lemma_stmt_stack(*body, offs, l1);
            let bl = gen_node(*body, offs, l1).0;
            let m0 = seq![Line::LabelDef(LabelRole::Begin, l as u32)];
            let m1 = seq![
                Line::PopReg(Reg::Rax),
                Line::CmpRaxZero,
                Line::Je(LabelRole::End, l as u32),
            ];
            let m2 = seq![
                Line::Jmp(LabelRole::Begin, l as u32),
                Line::LabelDef(LabelRole::End, l as u32),
            ];
            lemma_sm_sum1(Line::LabelDef(LabelRole::Begin, l as u32));
            lemma_sm_sum3(m1[0], m1[1], m1[2]);
            assert(m1 =~= seq![m1[0], m1[1], m1[2]]);
            lemma_sm_sum2(m2[0], m2[1]);
            assert(m2 =~= seq![m2[0], m2[1]]);
            lemma_sm_sum_concat(m0, cl);
            lemma_sm_sum_concat(m0 + cl, m1);
            lemma_sm_sum_concat(m0 + cl + m1, bl);
            lemma_sm_sum_concat(m0 + cl + m1 + bl, m2);
            assert(gen_node(n, offs, l).0 == m0 + cl + m1 + bl + m2);
        },
        Node::For { preop, cond, postop, body } => {
            let (pl, l1): (Seq<Line>, nat) = match preop {
                Some(p) => {
                    lemma_expr_stack_one(*p, offs, l + 1);
                    gen_node(*p, offs, l + 1)
                },
                None => (Seq::<Line>::empty(), l + 1),
            };
            let (cl2, l2): (Seq<Line>, nat) = match cond {
                Some(c) => {
                    lemma_expr_stack_one(*c, offs, l1);
                    let x = gen_node(*c, offs, l1);
                    let m1 = seq![
                        Line::PopReg(Reg::Rax),
                        Line::CmpRaxZero,
                        Line::Je(LabelRole::End, l as u32),
                    ];
                    lemma_sm_sum3(m1[0], m1[1], m1[2]);
                    assert(m1 =~= seq![m1[0], m1[1], m1[2]]);
                    lemma_sm_sum_concat(x.0, m1);
                    (x.0 + m1, x.1)
                },
                None => (Seq::<Line>::empty(), l1),
            };
            lemma_stmt_stack(*body, offs, l2);
            let bl = gen_node(*body, offs, l2).0;
            let l3 = gen_node(*body, offs, l2).1;
            let (ql, l4): (Seq<Line>, nat) = match postop {
                Some(q) => {
                    lemma_expr_stack_one(*q, offs, l3);
                    gen_node(*q, offs, l3)
                },
                None => (Seq::<Line>::empty(), l3),
            };
            let m0 = seq![Line::LabelDef(LabelRole::Begin, l as u32)];
            let m2 = seq![
                Line::Jmp(LabelRole::Begin, l as u32),
                Line::LabelDef(LabelRole::End, l as u32),
            ];
            lemma_sm_sum1(Line::LabelDef(LabelRole::Begin, l as u32));
            lemma_sm_sum2(m2[0], m2[1]);
            assert(m2 =~= seq![m2[0], m2[1]]);
            lemma_sm_sum_concat(pl, m0);
            lemma_sm_sum_concat(pl + m0, cl2);
            lemma_sm_sum_concat(pl + m0 + cl2, bl);
            lemma_sm_sum_concat(pl + m0 + cl2 + bl, ql);
            lemma_sm_sum_concat(pl + m0 + cl2 + bl + ql, m2);
            assert(gen_node(n, offs, l).0 == pl + m0 + cl2 + bl + ql + m2);
        },
        Node::Block { blocks } => {
            lemma_stmts_stack(blocks@, offs, l);
        },
        Node::Rt { lhs } => {
            lemma_expr_stack_one(*lhs, offs, l);
            let cl = gen_node(*lhs, offs, l).0;
            let tail = seq![Line::PopReg(Reg::Rax)] + epilogue();
            assert(tail =~= seq![
                Line::PopReg(Reg::Rax),
                Line::MovRegReg(Reg::Rsp, Reg::Rbp),
                Line::PopReg(Reg::Rbp),
                Line::Ret,
            ]);
            lemma_sm_sum4(
                Line::PopReg(Reg::Rax),
                Line::MovRegReg(Reg::Rsp, Reg::Rbp),
                Line::PopReg(Reg::Rbp),
                Line::Ret,
            );
            lemma_sm_sum_concat(cl, tail);
            assert(gen_node(n, offs, l).0 =~= cl + tail);
        },
        _ => {
            lemma_expr_stack_one(n, offs, l);
        },
    }
}

/// The accounting of a statement sequence with its per-statement pops.
pub proof fn lemma_stmts_stack(s: Seq<Node>, offs: Seq<usize>, l: nat)
    requires
        all_stmt_trees(s),
        all_gen_ok(s),
    ensures
        sm_sum(gen_stmts(s, offs, l).0) == stmts_delta(s),
    decreases s,
{
    if s.len() > 0 {
        lemma_stmt_stack(s[0], offs, l);
        let fl = gen_node(s[0], offs, l).0;
        let l1 = gen_node(s[0], offs, l).1;
        lemma_stmts_stack(s.subrange(1, s.len() as int), offs, l1);
        let rl = gen_stmts(s.subrange(1, s.len() as int), offs, l1).0;
        lemma_sm_sum1(Line::PopReg(Reg::Rax));
        lemma_sm_sum_concat(fl, seq![Line::PopReg(Reg::Rax)]);
        lemma_sm_sum_concat(fl + seq![Line::PopReg(Reg::Rax)], rl);
        assert(gen_stmts(s, offs, l).0 == fl + seq![Line::PopReg(Reg::Rax)] + rl);
    }
}


// ---------------------------------------------------------------------
// The label discipline
// ---------------------------------------------------------------------

/// Whether a line defines a label.
pub open spec fn is_def(l: Line) -> bool {
    l is LabelDef
}

/// The numeric suffix of a label definition.
pub open spec fn def_id(l: Line) -> nat {
    match l {
        Line::LabelDef(_, x) => x as nat,
        _ => 0,
    }
}

/// The role of a label definition.
pub open spec fn def_role(l: Line) -> LabelRole {
    match l {
        Line::LabelDef(k, _) => k,
        _ => LabelRole::Begin,
    }
}

/// Every label defined in the lines has its number in `[lo, hi)`; with
/// `lo == hi` the lines define no label at all.
pub open spec fn defs_in_range(ls: Seq<Line>, lo: nat, hi: nat) -> bool {
    forall|i: int| 0 <= i < ls.len() && is_def(#[trigger] ls[i]) ==> lo <= def_id(ls[i]) < hi
}

/// No two lines define the same label: the role-and-number pairs of the
/// label definitions are pairwise distinct.
pub open spec fn defs_distinct(ls: Seq<Line>) -> bool {
    forall|i: int, j: int|
        0 <= i < j < ls.len() && is_def(#[trigger] ls[i]) && is_def(#[trigger] ls[j])
            ==> !(def_role(ls[i]) == def_role(ls[j]) && def_id(ls[i]) == def_id(ls[j]))
}

/// Concatenating two runs of lines whose label ranges do not overlap
/// keeps the definitions distinct.
proof fn lemma_defs_concat(a: Seq<Line>, b: Seq<Line>, lo1: nat, hi1: nat, lo2: nat, hi2: nat)
    requires
        defs_in_range(a, lo1, hi1),
        defs_in_range(b, lo2, hi2),
        defs_distinct(a),
        defs_distinct(b),
        lo1 <= hi1 <= lo2 <= hi2,
    ensures
        defs_in_range(a + b, lo1, hi2),
        defs_distinct(a + b),
{
    assert forall|i: int| 0 <= i < (a + b).len() && is_def(#[trigger] (a + b)[i]) implies lo1
        <= def_id((a + b)[i]) < hi2 by {
        if i < a.len() {
            assert((a + b)[i] == a[i]);
        } else {
            assert((a + b)[i] == b[i - a.len()]);
        }
    }
    assert forall|i: int, j: int|
        0 <= i < j < (a + b).len() && is_def(#[trigger] (a + b)[i]) && is_def(
            #[trigger] (a + b)[j],
        ) implies !(def_role((a + b)[i]) == def_role((a + b)[j]) && def_id((a + b)[i]) == def_id(
        (a + b)[j],
    )) by {
        if i < a.len() {
            assert((a + b)[i] == a[i]);
        } else {
            assert((a + b)[i] == b[i - a.len()]);
        }
        if j < a.len() {
            assert((a + b)[j] == a[j]);
        } else {
            assert((a + b)[j] == b[j - a.len()]);
        }
    }
}

/// The generated code of one node defines only labels drawn between the
/// incoming and the outgoing counter value, each at most once.
#[verifier::rlimit(100)]
pub proof fn lemma_gen_labels(n: Node, offs: Seq<usize>, l: nat)
    requires
        gen_node(n, offs, l).1 <= u32::MAX,
    ensures
        defs_in_range(gen_node(n, offs, l).0, l, gen_node(n, offs, l).1),
        defs_distinct(gen_node(n, offs, l).0),
    decreases n, 1int,
{
    lemma_gen_node_label_grows(n, offs, l);
    match n {
        Node::Num { .. } => {},
        Node::Lv { lvar } => {
            lemma_gen_addr_labels(n, offs, l);
            let pl = gen_addr(n, offs, l).0;
            if lvar.ty.kind != TypeKind::TyArr {
                let tail = seq![
                    Line::PopReg(Reg::Rax),
                    crate::codegen::load_line(lvar.ty.size),
                    Line::PushReg(Reg::Rax),
                ];
                lemma_defs_concat(pl, tail, l, l, l, l);
            }
        },
        Node::Addr { lhs } => {
            lemma_gen_node_label_grows(*lhs, offs, l);
            lemma_gen_addr_labels(*lhs, offs, l);
        },
        Node::Deref { lhs } => {
            lemma_gen_labels(*lhs, offs, l);
            let cl = gen_node(*lhs, offs, l).0;
            let l1 = gen_node(*lhs, offs, l).1;
            if crate::parse::ty_of(n).kind != TypeKind::TyArr {
                let tail = seq![
                    Line::PopReg(Reg::Rax),
                    crate::codegen::load_line(crate::parse::ty_of(n).size),
                    Line::PushReg(Reg::Rax),
                ];
                lemma_defs_concat(cl, tail, l, l1, l1, l1);
            }
        },
        Node::Bin { op, lhs, rhs } => {
            if op == NodeKind::NdAs {
                let l1 = gen_addr(*lhs, offs, l).1;
                lemma_gen_node_label_grows(*lhs, offs, l);
                lemma_gen_node_label_grows(*rhs, offs, l1);
                lemma_gen_addr_labels(*lhs, offs, l);
                lemma_gen_labels(*rhs, offs, l1);
                let al = gen_addr(*lhs, offs, l).0;
                let rl = gen_node(*rhs, offs, l1).0;
                let l2 = gen_node(*rhs, offs, l1).1;
                let tail = seq![
                    Line::PopReg(Reg::Rdi),
                    Line::PopReg(Reg::Rax),
                    crate::codegen::store_line(crate::parse::ty_of(n).size),
                    Line::PushReg(Reg::Rdi),
                ];
                lemma_defs_concat(al, rl, l, l1, l1, l2);
                lemma_defs_concat(al + rl, tail, l, l2, l2, l2);
            } else {
                let l1 = gen_node(*lhs, offs, l).1;
                lemma_gen_node_label_grows(*lhs, offs, l);
                lemma_gen_node_label_grows(*rhs, offs, l1);
                lemma_gen_labels(*lhs, offs, l);
                lemma_gen_labels(*rhs, offs, l1);
                let ll = gen_node(*lhs, offs, l).0;
                let rl = gen_node(*rhs, offs, l1).0;
                let l2 = gen_node(*rhs, offs, l1).1;
                let mid = seq![Line::PopReg(Reg::Rdi), Line::PopReg(Reg::Rax)];
                let push = seq![Line::PushReg(Reg::Rax)];
                lemma_defs_concat(ll, rl, l, l1, l1, l2);
                lemma_defs_concat(ll + rl, mid, l, l2, l2, l2);
                assert(defs_in_range(op_lines(op), l2, l2));
                lemma_defs_concat(ll + rl + mid, op_lines(op), l, l2, l2, l2);
                lemma_defs_concat(ll + rl + mid + op_lines(op), push, l, l2, l2, l2);
            }
        },
        Node::If { cond, body, els } => {
            let l1 = gen_node(*cond, offs, l + 1).1;
            lemma_gen_node_label_grows(*cond, offs, l + 1);
            lemma_gen_node_label_grows(*body, offs, l1);
            let l2 = gen_node(*body, offs, l1).1;
            let cl = gen_node(*cond, offs, l + 1).0;
            let bl = gen_node(*body, offs, l1).0;
            match els {
                Some(e) => {
                    lemma_gen_node_label_grows(*e, offs, l2);
                    let l3 = gen_node(*e, offs, l2).1;
                    lemma_gen_labels(*cond, offs, l + 1);
                    lemma_gen_labels(*body, offs, l1);
                    lemma_gen_labels(*e, offs, l2);
                    let el = gen_node(*e, offs, l2).0;
                    let m1 = seq![
                        Line::PopReg(Reg::Rax),
                        Line::CmpRaxZero,
                        Line::Je(LabelRole::Else, l as u32),
                    ];
                    let m2 = seq![
                        Line::Jmp(LabelRole::End, l as u32),
                        Line::LabelDef(LabelRole::Else, l as u32),
                    ];
                    let m3 = seq![Line::LabelDef(LabelRole::End, l as u32)];
                    lemma_defs_concat(cl, m1, l + 1, l1, l1, l1);
                    lemma_defs_concat(cl + m1, bl, l + 1, l1, l1, l2);
                    // the Else definition carries the construct's own number l
                    assert(defs_in_range(m2, l, l + 1));
                    assert(defs_distinct(m2));
                    assert(defs_in_range(m3, l, l + 1));
                    // merge manually: children use (l, hi) ranges starting above l
                    let left = cl + m1 + bl;
                    assert(defs_in_range(left, l + 1, l2));
                    let with_m2 = left + m2;
                    assert(defs_distinct(with_m2)) by {
                        assert forall|i: int, j: int|
                            0 <= i < j < with_m2.len() && is_def(#[trigger] with_m2[i]) && is_def(
                                #[trigger] with_m2[j],
                            ) implies !(def_role(with_m2[i]) == def_role(with_m2[j]) && def_id(
                            with_m2[i],
                        ) == def_id(with_m2[j])) by {
                            if i < left.len() {
                                assert(with_m2[i] == left[i]);
                            } else {
                                assert(with_m2[i] == m2[i - left.len()]);
                            }
                            if j < left.len() {
                                assert(with_m2[j] == left[j]);
                            } else {
                                assert(with_m2[j] == m2[j - left.len()]);
                            }
                        }
                    }
                    assert(defs_in_range(with_m2, l, l2));
                    lemma_defs_concat(with_m2, el, l, l2, l2, l3);
                    let with_el = with_m2 + el;
                    let whole = with_el + m3;
                    assert(defs_distinct(whole)) by {
                        assert forall|i: int, j: int|
                            0 <= i < j < whole.len() && is_def(#[trigger] whole[i]) && is_def(
                                #[trigger] whole[j],
                            ) implies !(def_role(whole[i]) == def_role(whole[j]) && def_id(
                            whole[i],
                        ) == def_id(whole[j])) by {
                            if i < with_el.len() {
                                assert(whole[i] == with_el[i]);
                                if i >= with_m2.len() {
                                    assert(with_el[i] == el[i - with_m2.len()]);
                                }
                            } else {
                                assert(whole[i] == m3[i - with_el.len()]);
                            }
                            if j < with_el.len() {
                                assert(whole[j] == with_el[j]);
                                if j >= with_m2.len() {
                                    assert(with_el[j] == el[j - with_m2.len()]);
                                }
                            } else {
                                assert(whole[j] == m3[j - with_el.len()]);
                            }
                        }
                    }
                    assert(defs_in_range(whole, l, l3)) by {
                        assert forall|i: int|
                            0 <= i < whole.len() && is_def(#[trigger] whole[i]) implies l <= def_id(
                            whole[i],
                        ) < l3 by {
                            if i < with_el.len() {
                                assert(whole[i] == with_el[i]);
                                if i >= with_m2.len() {
                                    assert(with_el[i] == el[i - with_m2.len()]);
                                }
                            } else {
                                assert(whole[i] == m3[i - with_el.len()]);
                            }
                        }
                    }
                    assert(gen_node(n, offs, l).0 == whole);
                },
                None => {
                    lemma_gen_labels(*cond, offs, l + 1);
                    lemma_gen_labels(*body, offs, l1);
                    let m1 = seq![
                        Line::PopReg(Reg::Rax),
                        Line::CmpRaxZero,
                        Line::Je(LabelRole::End, l as u32),
                    ];
                    let m3 = seq![Line::LabelDef(LabelRole::End, l as u32)];
                    lemma_defs_concat(cl, m1, l + 1, l1, l1, l1);
                    lemma_defs_concat(cl + m1, bl, l + 1, l1, l1, l2);
                    let left = cl + m1 + bl;
                    let whole = left + m3;
                    assert(defs_in_range(m3, l, l + 1));
                    assert(defs_distinct(whole)) by {
                        assert forall|i: int, j: int|
                            0 <= i < j < whole.len() && is_def(#[trigger] whole[i]) && is_def(
                                #[trigger] whole[j],
                            ) implies !(def_role(whole[i]) == def_role(whole[j]) && def_id(
                            whole[i],
                        ) == def_id(whole[j])) by {
                            if i < left.len() {
                                assert(whole[i] == left[i]);
                            } else {
                                assert(whole[i] == m3[i - left.len()]);
                            }
                            if j < left.len() {
                                assert(whole[j] == left[j]);
                            } else {
                                assert(whole[j] == m3[j - left.len()]);
                            }
                        }
                    }
                    assert(defs_in_range(whole, l, l2)) by {
                        assert forall|i: int|
                            0 <= i < whole.len() && is_def(#[trigger] whole[i]) implies l <= def_id(
                            whole[i],
                        ) < l2 by {
                            if i < left.len() {
                                assert(whole[i] == left[i]);
                            } else {
                                assert(whole[i] == m3[i - left.len()]);
                            }
                        }
                    }
                    assert(gen_node(n, offs, l).0 == whole);
                },
            }
        },
        Node::While { cond, body } => {
            let l1 = gen_node(*cond, offs, l + 1).1;
            lemma_gen_node_label_grows(*cond, offs, l + 1);
            lemma_gen_node_label_grows(*body, offs, l1);
            let l2 = gen_node(*body, offs, l1).1;
            lemma_gen_labels(*cond, offs, l + 1);
            lemma_gen_labels(*body, offs, l1);
            let cl = gen_node(*cond, offs, l + 1).0;
            let bl = gen_node(*body, offs, l1).0;
            let m0 = seq![Line::LabelDef(LabelRole::Begin, l as u32)];
            let m1 = seq![
                Line::PopReg(Reg::Rax),
                Line::CmpRaxZero,
                Line::Je(LabelRole::End, l as u32),
            ];
            let m2 = seq![
                Line::Jmp(LabelRole::Begin, l as u32),
                Line::LabelDef(LabelRole::End, l as u32),
            ];
            assert(defs_in_range(m0, l, l + 1));
            lemma_defs_concat(m0, cl, l, l + 1, l + 1, l1);
            lemma_defs_concat(m0 + cl, m1, l, l1, l1, l1);
            lemma_defs_concat(m0 + cl + m1, bl, l, l1, l1, l2);
            let left = m0 + cl + m1 + bl;
            let whole = left + m2;
            assert(defs_in_range(m2, l, l + 1));
            assert(defs_distinct(whole)) by {
                assert forall|i: int, j: int|
                    0 <= i < j < whole.len() && is_def(#[trigger] whole[i]) && is_def(
                        #[trigger] whole[j],
                    ) implies !(def_role(whole[i]) == def_role(whole[j]) && def_id(whole[i])
                    == def_id(whole[j])) by {
                    if i < left.len() {
                        assert(whole[i] == left[i]);
                        if i >= 1 {
                            assert(left[i] != Line::LabelDef(LabelRole::Begin, l as u32)
                                || def_id(left[i]) >= l + 1) by {
                                if i < (m0 + cl).len() {
                                    assert(left[i] == (m0 + cl)[i]);
                                    assert((m0 + cl)[i] == cl[i - 1]);
                                } else if i < (m0 + cl + m1).len() {
                                    assert(left[i] == m1[i - (m0 + cl).len()]);
                                } else {
                                    assert(left[i] == bl[i - (m0 + cl + m1).len()]);
                                }
                            }
                        }
                    } else {
                        assert(whole[i] == m2[i - left.len()]);
                    }
                    if j < left.len() {
                        assert(whole[j] == left[j]);
                        if j >= 1 {
                            if j < (m0 + cl).len() {
                                assert(left[j] == (m0 + cl)[j]);
                                assert((m0 + cl)[j] == cl[j - 1]);
                            } else if j < (m0 + cl + m1).len() {
                                assert(left[j] == m1[j - (m0 + cl).len()]);
                            } else {
                                assert(left[j] == bl[j - (m0 + cl + m1).len()]);
                            }
                        }
                    } else {
                        assert(whole[j] == m2[j - left.len()]);
                    }
                }
            }
            assert(defs_in_range(whole, l, l2)) by {
                assert forall|i: int|
                    0 <= i < whole.len() && is_def(#[trigger] whole[i]) implies l <= def_id(
                    whole[i],
                ) < l2 by {
                    if i < left.len() {
                        assert(whole[i] == left[i]);
                    } else {
                        assert(whole[i] == m2[i - left.len()]);
                    }
                }
            }
            assert(gen_node(n, offs, l).0 == whole);
        },
        Node::For { preop, cond, postop, body } => {
            lemma_for_labels(n, offs, l);
        },
        Node::Block { blocks } => {
            lemma_stmts_labels(blocks@, offs, l);
        },
        Node::Func { funcname, args } => {
            lemma_args_labels(args@, offs, l);
            let al = gen_args(args@, offs, l).0;
            let l1 = gen_args(args@, offs, l).1;
            let k = args@.len() as int;
            let tail = seq![Line::Call(funcname), Line::PushReg(Reg::Rax)];
            assert(defs_in_range(pop_args(k), l1, l1));
            lemma_defs_concat(al, pop_args(k), l, l1, l1, l1);
            lemma_defs_concat(al + pop_args(k), tail, l, l1, l1, l1);
        },
        Node::Rt { lhs } => {
            lemma_gen_labels(*lhs, offs, l);
            let cl = gen_node(*lhs, offs, l).0;
            let l1 = gen_node(*lhs, offs, l).1;
            let tail = seq![Line::PopReg(Reg::Rax)] + epilogue();
            assert(defs_in_range(tail, l1, l1)) by {
                assert(tail =~= seq![
                    Line::PopReg(Reg::Rax),
                    Line::MovRegReg(Reg::Rsp, Reg::Rbp),
                    Line::PopReg(Reg::Rbp),
                    Line::Ret,
                ]);
            }
            lemma_defs_concat(cl, tail, l, l1, l1, l1);
            assert(gen_node(n, offs, l).0 == cl + tail);
        },
    }
}

/// Concatenating two runs whose label-number ranges do not overlap, in
/// either order, keeps the definitions distinct.
proof fn lemma_defs_concat_disjoint(
    a: Seq<Line>,
    b: Seq<Line>,
    loa: nat,
    hia: nat,
    lob: nat,
    hib: nat,
    lo: nat,
    hi: nat,
)
    requires
        defs_in_range(a, loa, hia),
        defs_in_range(b, lob, hib),
        defs_distinct(a),
        defs_distinct(b),
        hia <= lob || hib <= loa,
        lo <= loa,
        lo <= lob,
        hia <= hi,
        hib <= hi,
    ensures
        defs_in_range(a + b, lo, hi),
        defs_distinct(a + b),
{
    assert forall|i: int| 0 <= i < (a + b).len() && is_def(#[trigger] (a + b)[i]) implies lo
        <= def_id((a + b)[i]) < hi by {
        if i < a.len() {
            assert((a + b)[i] == a[i]);
        } else {
            assert((a + b)[i] == b[i - a.len()]);
        }
    }
    assert forall|i: int, j: int|
        0 <= i < j < (a + b).len() && is_def(#[trigger] (a + b)[i]) && is_def(
            #[trigger] (a + b)[j],
        ) implies !(def_role((a + b)[i]) == def_role((a + b)[j]) && def_id((a + b)[i]) == def_id(
        (a + b)[j],
    )) by {
        if i < a.len() {
            assert((a + b)[i] == a[i]);
        } else {
            assert((a + b)[i] == b[i - a.len()]);
        }
        if j < a.len() {
            assert((a + b)[j] == a[j]);
        } else {
            assert((a + b)[j] == b[j - a.len()]);
        }
    }
}

/// The label discipline of a `for` construct: the header and loop
/// labels carry the construct's own number; everything inside draws
/// larger numbers.
#[verifier::rlimit(100)]
proof fn lemma_for_labels(n: Node, offs: Seq<usize>, l: nat)
    requires
        n is For,
        gen_node(n, offs, l).1 <= u32::MAX,
    ensures
        defs_in_range(gen_node(n, offs, l).0, l, gen_node(n, offs, l).1),
        defs_distinct(gen_node(n, offs, l).0),
    decreases n, 0int,
{
    match n {
        Node::For { preop, cond, postop, body } => {
            lemma_gen_node_label_grows(n, offs, l);
            let (pl, l1): (Seq<Line>, nat) = match preop {
                Some(p) => {
                    lemma_gen_node_label_grows(*p, offs, l + 1);
                    gen_node(*p, offs, l + 1)
                },
                None => (Seq::<Line>::empty(), l + 1),
            };
            let (cl2, l2): (Seq<Line>, nat) = match cond {
                Some(c) => {
                    lemma_gen_node_label_grows(*c, offs, l1);
                    let x = gen_node(*c, offs, l1);
                    (
                        x.0 + seq![
                            Line::PopReg(Reg::Rax),
                            Line::CmpRaxZero,
                            Line::Je(LabelRole::End, l as u32),
                        ],
                        x.1,
                    )
                },
                None => (Seq::<Line>::empty(), l1),
            };
            lemma_gen_node_label_grows(*body, offs, l2);
            let bl = gen_node(*body, offs, l2).0;
            let l3 = gen_node(*body, offs, l2).1;
            let (ql, l4): (Seq<Line>, nat) = match postop {
                Some(q) => {
                    lemma_gen_node_label_grows(*q, offs, l3);
                    gen_node(*q, offs, l3)
                },
                None => (Seq::<Line>::empty(), l3),
            };
            assert(defs_in_range(pl, l + 1, l1) && defs_distinct(pl)) by {
                match preop {
                    Some(p) => {
                        lemma_gen_labels(*p, offs, l + 1);
                    },
                    None => {},
                }
            }
            assert(defs_in_range(cl2, l1, l2) && defs_distinct(cl2)) by {
                match cond {
                    Some(c) => {
                        lemma_gen_labels(*c, offs, l1);
                        let m1 = seq![
                            Line::PopReg(Reg::Rax),
                            Line::CmpRaxZero,
                            Line::Je(LabelRole::End, l as u32),
                        ];
                        lemma_defs_concat(gen_node(*c, offs, l1).0, m1, l1, l2, l2, l2);
                    },
                    None => {},
                }
            }
            lemma_gen_labels(*body, offs, l2);
            assert(defs_in_range(ql, l3, l4) && defs_distinct(ql)) by {
                match postop {
                    Some(q) => {
                        lemma_gen_labels(*q, offs, l3);
                    },
                    None => {},
                }
            }
            let m0 = seq![Line::LabelDef(LabelRole::Begin, l as u32)];
            let m2 = seq![
                Line::Jmp(LabelRole::Begin, l as u32),
                Line::LabelDef(LabelRole::End, l as u32),
            ];
            assert(defs_in_range(m0, l, l + 1));
            assert(defs_in_range(m2, l, l + 1));
            let c2 = pl + m0;
            lemma_defs_concat_disjoint(pl, m0, l + 1, l1, l, l + 1, l, l1);
            let c3 = c2 + cl2;
            lemma_defs_concat(c2, cl2, l, l1, l1, l2);
            let c4 = c3 + bl;
            lemma_defs_concat(c3, bl, l, l2, l2, l3);
            let c5 = c4 + ql;
            lemma_defs_concat(c4, ql, l, l3, l3, l4);
            // the only definition carrying the construct's number so far
            // is the begin label
            assert forall|i: int|
                0 <= i < c5.len() && is_def(#[trigger] c5[i]) && def_id(c5[i]) == l implies
                def_role(c5[i]) == LabelRole::Begin by {
                if i < c4.len() {
                    assert(c5[i] == c4[i]);
                    if i < c3.len() {
                        assert(c4[i] == c3[i]);
                        if i < c2.len() {
                            assert(c3[i] == c2[i]);
                            if i < pl.len() {
                                assert(c2[i] == pl[i]);
                            } else {
                                assert(c2[i] == m0[i - pl.len()]);
                            }
                        } else {
                            assert(c3[i] == cl2[i - c2.len()]);
                        }
                    } else {
                        assert(c4[i] == bl[i - c3.len()]);
                    }
                } else {
                    assert(c5[i] == ql[i - c4.len()]);
                }
            }
            let whole = c5 + m2;
            assert(defs_in_range(whole, l, l4)) by {
                assert forall|i: int|
                    0 <= i < whole.len() && is_def(#[trigger] whole[i]) implies l <= def_id(
                    whole[i],
                ) < l4 by {
                    if i < c5.len() {
                        assert(whole[i] == c5[i]);
                    } else {
                        assert(whole[i] == m2[i - c5.len()]);
                    }
                }
            }
            assert(defs_distinct(whole)) by {
                assert forall|i: int, j: int|
                    0 <= i < j < whole.len() && is_def(#[trigger] whole[i]) && is_def(
                        #[trigger] whole[j],
                    ) implies !(def_role(whole[i]) == def_role(whole[j]) && def_id(whole[i])
                    == def_id(whole[j])) by {
                    if i < c5.len() {
                        assert(whole[i] == c5[i]);
                    } else {
                        assert(whole[i] == m2[i - c5.len()]);
                    }
                    if j < c5.len() {
                        assert(whole[j] == c5[j]);
                    } else {
                        assert(whole[j] == m2[j - c5.len()]);
                    }
                }
            }
            assert(gen_node(n, offs, l).0 == whole);
        },
        _ => {},
    }
}

/// The address computation of an lvalue defines only labels drawn
/// between the incoming and outgoing counter value, each at most once.
pub proof fn lemma_gen_addr_labels(n: Node, offs: Seq<usize>, l: nat)
    requires
        gen_addr(n, offs, l).1 <= u32::MAX,
    ensures
        defs_in_range(gen_addr(n, offs, l).0, l, gen_addr(n, offs, l).1),
        defs_distinct(gen_addr(n, offs, l).0),
    decreases n, 0int,
{
    match n {
        Node::Lv { .. } => {},
        Node::Deref { lhs } => {
            lemma_gen_labels(*lhs, offs, l);
        },
        _ => {},
    }
}

/// The label discipline of a statement sequence.
pub proof fn lemma_stmts_labels(s: Seq<Node>, offs: Seq<usize>, l: nat)
    requires
        gen_stmts(s, offs, l).1 <= u32::MAX,
    ensures
        defs_in_range(gen_stmts(s, offs, l).0, l, gen_stmts(s, offs, l).1),
        defs_distinct(gen_stmts(s, offs, l).0),
    decreases s,
{
    lemma_gen_stmts_label_grows(s, offs, l);
    if s.len() > 0 {
        let l1 = gen_node(s[0], offs, l).1;
        lemma_gen_node_label_grows(s[0], offs, l);
        lemma_gen_stmts_label_grows(s.subrange(1, s.len() as int), offs, l1);
        lemma_gen_labels(s[0], offs, l);
        lemma_stmts_labels(s.subrange(1, s.len() as int), offs, l1);
        let fl = gen_node(s[0], offs, l).0;
        let rl = gen_stmts(s.subrange(1, s.len() as int), offs, l1).0;
        let l2 = gen_stmts(s.subrange(1, s.len() as int), offs, l1).1;
        lemma_defs_concat(fl, seq![Line::PopReg(Reg::Rax)], l, l1, l1, l1);
        lemma_defs_concat(fl + seq![Line::PopReg(Reg::Rax)], rl, l, l1, l1, l2);
        assert(gen_stmts(s, offs, l).0 == fl + seq![Line::PopReg(Reg::Rax)] + rl);
    }
}

/// The label discipline of an argument list.
pub proof fn lemma_args_labels(s: Seq<Node>, offs: Seq<usize>, l: nat)
    requires
        gen_args(s, offs, l).1 <= u32::MAX,
    ensures
        defs_in_range(gen_args(s, offs, l).0, l, gen_args(s, offs, l).1),
        defs_distinct(gen_args(s, offs, l).0),
    decreases s,
{
    lemma_gen_args_label_grows(s, offs, l);
    if s.len() > 0 {
        let l1 = gen_node(s[0], offs, l).1;
        lemma_gen_node_label_grows(s[0], offs, l);
        lemma_gen_args_label_grows(s.subrange(1, s.len() as int), offs, l1);
        lemma_gen_labels(s[0], offs, l);
        lemma_args_labels(s.subrange(1, s.len() as int), offs, l1);
        let fl = gen_node(s[0], offs, l).0;
        let rl = gen_args(s.subrange(1, s.len() as int), offs, l1).0;
        let l2 = gen_args(s.subrange(1, s.len() as int), offs, l1).1;
        lemma_defs_concat(fl, rl, l, l1, l1, l2);
        assert(gen_args(s, offs, l).0 == fl + rl);
    }
}


/// One function's lines define only labels drawn while its body was
/// generated, each at most once: everything around the body — the
/// directives, the layout comments, the prologue, the parameter stores,
/// and the epilogue — defines no label.
pub proof fn lemma_function_labels(f: Function, l: nat)
    requires
        gen_function(f, l).1 <= u32::MAX,
    ensures
        defs_in_range(gen_function(f, l).0, l, gen_function(f, l).1),
        defs_distinct(gen_function(f, l).0),
{
    let offs = offsets_of(f.locals@);
    let total = suffix_size(f.locals@, 0);
    lemma_gen_stmts_label_grows(f.body@, offs, l);
    lemma_stmts_labels(f.body@, offs, l);
    let bl = gen_stmts(f.body@, offs, l).0;
    let l1 = gen_stmts(f.body@, offs, l).1;
    let head = seq![Line::Global(f.name), Line::FnLabel(f.name)] + comment_lines(f.locals@)
        + seq![
        Line::PushReg(Reg::Rbp),
        Line::MovRegReg(Reg::Rbp, Reg::Rsp),
        Line::SubRegImm(Reg::Rsp, spec_align(total, 16) as usize),
    ] + param_stores(f);
    assert(defs_in_range(head, l, l)) by {
        assert forall|i: int| 0 <= i < head.len() && is_def(#[trigger] head[i]) implies l
            <= def_id(head[i]) < l by {
            let a = seq![Line::Global(f.name), Line::FnLabel(f.name)];
            let b = a + comment_lines(f.locals@);
            let c = b + seq![
                Line::PushReg(Reg::Rbp),
                Line::MovRegReg(Reg::Rbp, Reg::Rsp),
                Line::SubRegImm(Reg::Rsp, spec_align(total, 16) as usize),
            ];
            if i < c.len() {
                assert(head[i] == c[i]);
                if i < b.len() {
                    assert(c[i] == b[i]);
                    if i < a.len() {
                        assert(b[i] == a[i]);
                    } else {
                        assert(b[i] == comment_lines(f.locals@)[i - a.len()]);
                    }
                }
            } else {
                assert(head[i] == param_stores(f)[i - c.len()]);
            }
        }
    }
    lemma_defs_concat(head, bl, l, l, l, l1);
    lemma_defs_concat(head + bl, epilogue(), l, l1, l1, l1);
    assert(gen_function(f, l).0 == head + bl + epilogue());
}

/// Labels within a single compile are pairwise distinct: over the whole
/// emitted translation unit, no two lines define the same label, and
/// every defined label number was drawn from the program-wide counter.
pub proof fn lemma_program_labels(funcs: Seq<Function>, l: nat)
    requires
        gen_program(funcs, l).1 <= u32::MAX,
    ensures
        defs_in_range(gen_program(funcs, l).0, l, gen_program(funcs, l).1),
        defs_distinct(gen_program(funcs, l).0),
        defs_distinct(crate::codegen::gen_output(funcs, l)),
    decreases funcs,
{
    lemma_gen_program_grows(funcs, l);
    if funcs.len() > 0 {
        let l1 = gen_function(funcs[0], l).1;
        let rest = funcs.subrange(1, funcs.len() as int);
        lemma_gen_stmts_label_grows(funcs[0].body@, offsets_of(funcs[0].locals@), l);
        lemma_gen_program_grows(rest, l1);
        lemma_function_labels(funcs[0], l);
        lemma_program_labels(rest, l1);
        lemma_defs_concat(
            gen_function(funcs[0], l).0,
            gen_program(rest, l1).0,
            l,
            l1,
            l1,
            gen_program(rest, l1).1,
        );
        assert(gen_program(funcs, l).0 == gen_function(funcs[0], l).0 + gen_program(
            rest,
            l1,
        ).0);
    }
    let out = crate::codegen::gen_output(funcs, l);
    assert(defs_distinct(out)) by {
        assert forall|i: int, j: int|
            0 <= i < j < out.len() && is_def(#[trigger] out[i]) && is_def(
                #[trigger] out[j],
            ) implies !(def_role(out[i]) == def_role(out[j]) && def_id(out[i]) == def_id(
            out[j],
        )) by {
            let pl = gen_program(funcs, l).0;
            if i >= 1 {
                assert(out[i] == pl[i - 1]);
            }
            if j >= 1 {
                assert(out[j] == pl[j - 1]);
            }
        }
    }
}

/// The label counter threaded through a function list only grows.
proof fn lemma_gen_program_grows(funcs: Seq<Function>, l: nat)
    ensures
        gen_program(funcs, l).1 >= l,
    decreases funcs,
{
    if funcs.len() > 0 {
        lemma_gen_stmts_label_grows(funcs[0].body@, offsets_of(funcs[0].locals@), l);
        lemma_gen_program_grows(funcs.subrange(1, funcs.len() as int), gen_function(funcs[0], l).1);
    }
}

// ---------------------------------------------------------------------
// Per-construct label triples
// ---------------------------------------------------------------------

/// The two labels of a `while` and the jumps to them all carry the one
/// number the construct drew: the begin label opens the lines, the end
/// label closes them, the exit jump right after the condition targets
/// the end, and the back jump targets the begin.
pub proof fn lemma_while_label_triple(n: Node, offs: Seq<usize>, l: nat)
    requires
        n is While,
    ensures
        ({
            let lines = gen_node(n, offs, l).0;
            let cl = gen_node(*n->While_cond, offs, l + 1).0;
            &&& lines.len() >= 6
            &&& lines[0] == Line::LabelDef(LabelRole::Begin, l as u32)
            &&& lines[3 + cl.len() as int] == Line::Je(LabelRole::End, l as u32)
            &&& lines[lines.len() - 2] == Line::Jmp(LabelRole::Begin, l as u32)
            &&& lines[lines.len() - 1] == Line::LabelDef(LabelRole::End, l as u32)
        }),
{
    match n {
        Node::While { cond, body } => {
            let cl = gen_node(*cond, offs, l + 1).0;
            let l1 = gen_node(*cond, offs, l + 1).1;
            let bl = gen_node(*body, offs, l1).0;
            let m0 = seq![Line::LabelDef(LabelRole::Begin, l as u32)];
            let m1 = seq![
                Line::PopReg(Reg::Rax),
                Line::CmpRaxZero,
                Line::Je(LabelRole::End, l as u32),
            ];
            let m2 = seq![
                Line::Jmp(LabelRole::Begin, l as u32),
                Line::LabelDef(LabelRole::End, l as u32),
            ];
            let whole = m0 + cl + m1 + bl + m2;
            assert(gen_node(n, offs, l).0 == whole);
            assert(whole[0] == m0[0]);
            assert(whole[3 + cl.len() as int] == m1[2]);
            assert(whole[whole.len() - 2] == m2[0]);
            assert(whole[whole.len() - 1] == m2[1]);
        },
        _ => {},
    }
}

/// The labels of an `if` with an `else` and the jumps to them all carry
/// the one number the construct drew: the exit jump after the condition
/// targets the else label, the jump over the else branch targets the
/// end label, and the two label definitions close their branches.
pub proof fn lemma_if_else_label_triple(n: Node, offs: Seq<usize>, l: nat)
    requires
        n is If,
        n->If_els is Some,
    ensures
        ({
            let lines = gen_node(n, offs, l).0;
            let cl = gen_node(*n->If_cond, offs, l + 1).0;
            let l1 = gen_node(*n->If_cond, offs, l + 1).1;
            let bl = gen_node(*n->If_body, offs, l1).0;
            &&& lines.len() >= 6
            &&& lines[cl.len() as int + 2] == Line::Je(LabelRole::Else, l as u32)
            &&& lines[cl.len() as int + 3 + bl.len() as int] == Line::Jmp(LabelRole::End, l as u32)
            &&& lines[cl.len() as int + 4 + bl.len() as int] == Line::LabelDef(LabelRole::Else, l as u32)
            &&& lines[lines.len() - 1] == Line::LabelDef(LabelRole::End, l as u32)
        }),
{
    match n {
        Node::If { cond, body, els } => {
            match els {
                Some(e) => {
                    let cl = gen_node(*cond, offs, l + 1).0;
                    let l1 = gen_node(*cond, offs, l + 1).1;
                    let bl = gen_node(*body, offs, l1).0;
                    let l2 = gen_node(*body, offs, l1).1;
                    let el = gen_node(*e, offs, l2).0;
                    let m1 = seq![
                        Line::PopReg(Reg::Rax),
                        Line::CmpRaxZero,
                        Line::Je(LabelRole::Else, l as u32),
                    ];
                    let m2 = seq![
                        Line::Jmp(LabelRole::End, l as u32),
                        Line::LabelDef(LabelRole::Else, l as u32),
                    ];
                    let m3 = seq![Line::LabelDef(LabelRole::End, l as u32)];
                    let whole = cl + m1 + bl + m2 + el + m3;
                    assert(gen_node(n, offs, l).0 == whole);
                    assert(whole[cl.len() as int + 2] == m1[2]);
                    assert(whole[cl.len() as int + 3 + bl.len() as int] == m2[0]);
                    assert(whole[cl.len() as int + 4 + bl.len() as int] == m2[1]);
                    assert(whole[whole.len() - 1] == m3[0]);
                },
                None => {},
            }
        },
        _ => {},
    }
}

/// The one label of an `if` without an `else`, and the conditional jump
/// to it, carry the one number the construct drew: the jump right after
/// the condition targets the end label that closes the lines.
pub proof fn lemma_if_label_pair(n: Node, offs: Seq<usize>, l: nat)
    requires
        n is If,
        n->If_els is None,
    ensures
        ({
            let lines = gen_node(n, offs, l).0;
            let cl = gen_node(*n->If_cond, offs, l + 1).0;
            &&& lines.len() >= 4
            &&& lines[cl.len() as int + 2] == Line::Je(LabelRole::End, l as u32)
            &&& lines[lines.len() - 1] == Line::LabelDef(LabelRole::End, l as u32)
        }),
{
    match n {
        Node::If { cond, body, els } => {
            match els {
                Some(e) => {},
                None => {
                    let cl = gen_node(*cond, offs, l + 1).0;
                    let l1 = gen_node(*cond, offs, l + 1).1;
                    let bl = gen_node(*body, offs, l1).0;
                    let m1 = seq![
                        Line::PopReg(Reg::Rax),
                        Line::CmpRaxZero,
                        Line::Je(LabelRole::End, l as u32),
                    ];
                    let m3 = seq![Line::LabelDef(LabelRole::End, l as u32)];
                    let whole = cl + m1 + bl + m3;
                    assert(gen_node(n, offs, l).0 == whole);
                    assert(whole[cl.len() as int + 2] == m1[2]);
                    assert(whole[whole.len() - 1] == m3[0]);
                },
            }
        },
        _ => {},
    }
}

/// The two labels of a `for` and the jumps to them all carry the one
/// number the construct drew.
pub proof fn lemma_for_label_triple(n: Node, offs: Seq<usize>, l: nat)
    requires
        n is For,
    ensures
        ({
            let lines = gen_node(n, offs, l).0;
            let pll = match n->For_preop {
                Some(p) => gen_node(*p, offs, l + 1).0.len(),
                None => 0,
            };
            &&& lines.len() >= 3
            &&& lines[pll as int] == Line::LabelDef(LabelRole::Begin, l as u32)
            &&& lines[lines.len() - 2] == Line::Jmp(LabelRole::Begin, l as u32)
            &&& lines[lines.len() - 1] == Line::LabelDef(LabelRole::End, l as u32)
        }),
{
    match n {
        Node::For { preop, cond, postop, body } => {
            let (pl, l1): (Seq<Line>, nat) = match preop {
                Some(p) => gen_node(*p, offs, l + 1),
                None => (Seq::<Line>::empty(), l + 1),
            };
            let (cl2, l2): (Seq<Line>, nat) = match cond {
                Some(c) => {
                    let x = gen_node(*c, offs, l1);
                    (
                        x.0 + seq![
                            Line::PopReg(Reg::Rax),
                            Line::CmpRaxZero,
                            Line::Je(LabelRole::End, l as u32),
                        ],
                        x.1,
                    )
                },
                None => (Seq::<Line>::empty(), l1),
            };
            let bl = gen_node(*body, offs, l2).0;
            let l3 = gen_node(*body, offs, l2).1;
            let (ql, l4): (Seq<Line>, nat) = match postop {
                Some(q) => gen_node(*q, offs, l3),
                None => (Seq::<Line>::empty(), l3),
            };
            let m0 = seq![Line::LabelDef(LabelRole::Begin, l as u32)];
            let m2 = seq![
                Line::Jmp(LabelRole::Begin, l as u32),
                Line::LabelDef(LabelRole::End, l as u32),
            ];
            let whole = pl + m0 + cl2 + bl + ql + m2;
            assert(gen_node(n, offs, l).0 == whole);
            assert(whole[pl.len() as int] == m0[0]);
            assert(whole[whole.len() - 2] == m2[0]);
            assert(whole[whole.len() - 1] == m2[1]);
        },
        _ => {},
    }
}

// ---------------------------------------------------------------------
// The frame layout
// ---------------------------------------------------------------------

/// The frame layout of one function: each local's offset is the sum of
/// the sizes of the locals at its frame index and after it, the first
/// local's offset is the sum of all the local sizes — the highest
/// assigned offset — and the prologue's frame adjustment, the line
/// right after the two-line frame setup, is that sum rounded up to 16.
pub proof fn lemma_frame_layout(f: Function, l: nat)
    ensures
        offsets_of(f.locals@).len() == f.locals@.len(),
        forall|i: int|
            0 <= i < f.locals@.len() ==> #[trigger] offsets_of(f.locals@)[i] == suffix_size(
                f.locals@,
                i,
            ) as usize,
        forall|i: int|
            0 <= i < f.locals@.len() ==> #[trigger] suffix_size(f.locals@, i) <= suffix_size(
                f.locals@,
                0,
            ),
        gen_function(f, l).0[4 + f.locals@.len() as int] == Line::SubRegImm(
            Reg::Rsp,
            spec_align(suffix_size(f.locals@, 0), 16) as usize,
        ),
{
    assert forall|i: int| 0 <= i < f.locals@.len() implies #[trigger] suffix_size(f.locals@, i)
        <= suffix_size(f.locals@, 0) by {
        crate::codegen::lemma_suffix_size_monotone(f.locals@, 0, i);
    }
    let total = suffix_size(f.locals@, 0);
    let a = seq![Line::Global(f.name), Line::FnLabel(f.name)];
    let b = a + comment_lines(f.locals@);
    let pro = seq![
        Line::PushReg(Reg::Rbp),
        Line::MovRegReg(Reg::Rbp, Reg::Rsp),
        Line::SubRegImm(Reg::Rsp, spec_align(total, 16) as usize),
    ];
    let c = b + pro;
    let whole = c + param_stores(f) + gen_stmts(f.body@, offsets_of(f.locals@), l).0
        + epilogue();
    assert(gen_function(f, l).0 == whole);
    let k = 4 + f.locals@.len() as int;
    assert(whole[k] == c[k]);
    assert(c[k] == pro[2]);
}

// ---------------------------------------------------------------------
// Boundary shapes
// ---------------------------------------------------------------------

/// A function with no parameters, no locals, and an empty body emits
/// exactly the prologue and the epilogue between its two directives,
/// with the minimum 16-byte frame.
pub proof fn lemma_empty_function(f: Function, l: nat)
    requires
        f.paramnum == 0,
        f.locals@.len() == 0,
        f.body@.len() == 0,
    ensures
        gen_function(f, l).0 =~= seq![
            Line::Global(f.name),
            Line::FnLabel(f.name),
            Line::PushReg(Reg::Rbp),
            Line::MovRegReg(Reg::Rbp, Reg::Rsp),
            Line::SubRegImm(Reg::Rsp, 16),
            Line::MovRegReg(Reg::Rsp, Reg::Rbp),
            Line::PopReg(Reg::Rbp),
            Line::Ret,
        ],
        gen_function(f, l).1 == l,
{
    assert(comment_lines(f.locals@) =~= Seq::<Line>::empty());
    assert(param_stores(f) =~= Seq::<Line>::empty());
    assert(gen_stmts(f.body@, offsets_of(f.locals@), l).0 =~= Seq::<Line>::empty());
}

/// With six parameters, all six argument registers are stored at the
/// parameters' declaration-order offsets, right after the prologue, the
/// 4-byte register sibling chosen for parameters of size 4.
pub proof fn lemma_six_params(f: Function, l: nat)
    requires
        f.paramnum == 6,
        f.locals@.len() >= 6,
    ensures
        forall|i: int|
            0 <= i < 6 ==> gen_function(f, l).0[5 + f.locals@.len() as int + i] == Line::MovToFrame(
                suffix_size(f.locals@, i) as usize,
                if f.locals@[i].ty.size == 4 {
                    arg_reg4(i)
                } else {
                    arg_reg8(i)
                },
            ),
{
    let a = seq![Line::Global(f.name), Line::FnLabel(f.name)];
    let b = a + comment_lines(f.locals@);
    let pro = seq![
        Line::PushReg(Reg::Rbp),
        Line::MovRegReg(Reg::Rbp, Reg::Rsp),
        Line::SubRegImm(Reg::Rsp, spec_align(suffix_size(f.locals@, 0), 16) as usize),
    ];
    let c = b + pro;
    let d = c + param_stores(f);
    let whole = d + gen_stmts(f.body@, offsets_of(f.locals@), l).0 + epilogue();
    assert(gen_function(f, l).0 == whole);
    assert forall|i: int|
        0 <= i < 6 implies gen_function(f, l).0[5 + f.locals@.len() as int + i] == Line::MovToFrame(
        suffix_size(f.locals@, i) as usize,
        if f.locals@[i].ty.size == 4 {
            arg_reg4(i)
        } else {
            arg_reg8(i)
        },
    ) by {
        let k = 5 + f.locals@.len() as int + i;
        assert(whole[k] == d[k]);
        assert(d[k] == param_stores(f)[i]);
    }
}


// ---------------------------------------------------------------------
// Commuting independent assignments
// ---------------------------------------------------------------------

/// A pure integer expression over locals: a literal, a local, or
/// addition, subtraction, multiplication, or a comparison over such.
/// Assignments, calls, division (which can trap), and the address
/// operators are excluded: these are the expressions with no side
/// effects.
pub open spec fn pure_int_expr(n: Node) -> bool
    decreases n,
{
    match n {
        Node::Num { .. } => true,
        Node::Lv { .. } => true,
        Node::Bin { op, lhs, rhs } => {
            &&& (op == NodeKind::NdAdd || op == NodeKind::NdSub || op == NodeKind::NdMul || op
                == NodeKind::NdMt || op == NodeKind::NdLt || op == NodeKind::NdOm || op
                == NodeKind::NdOl || op == NodeKind::NdEq || op == NodeKind::NdNe)
            &&& pure_int_expr(*lhs)
            &&& pure_int_expr(*rhs)
        },
        _ => false,
    }
}

/// The frame indices of the locals an expression reads.
pub open spec fn expr_reads(n: Node) -> Set<usize>
    decreases n,
{
    match n {
        Node::Num { .. } => Set::<usize>::empty(),
        Node::Lv { lvar } => Set::<usize>::empty().insert(lvar.id),
        Node::Bin { lhs, rhs, .. } => expr_reads(*lhs) + expr_reads(*rhs),
        _ => Set::<usize>::empty(),
    }
}

/// The value of a pure integer expression over a store of the locals'
/// values, in 64-bit two's-complement arithmetic; an unset local reads
/// as zero, and comparisons are signed and yield 0 or 1.
pub open spec fn eval_pure(n: Node, store: Map<usize, u64>) -> u64
    decreases n,
{
    match n {
        Node::Num { val } => val as u64,
        Node::Lv { lvar } => if store.dom().contains(lvar.id) {
            store[lvar.id]
        } else {
            0
        },
        Node::Bin { op, lhs, rhs } => {
            let a = eval_pure(*lhs, store);
            let b = eval_pure(*rhs, store);
            match op {
                NodeKind::NdAdd => (a + b) as u64,
                NodeKind::NdSub => (a - b) as u64,
                NodeKind::NdMul => (a * b) as u64,
                NodeKind::NdMt => if (a as i64) > (b as i64) {
                    1
                } else {
                    0
                },
                NodeKind::NdLt => if (a as i64) < (b as i64) {
                    1
                } else {
                    0
                },
                NodeKind::NdOm => if (a as i64) >= (b as i64) {
                    1
                } else {
                    0
                },
                NodeKind::NdOl => if (a as i64) <= (b as i64) {
                    1
                } else {
                    0
                },
                NodeKind::NdEq => if a == b {
                    1
                } else {
                    0
                },
                NodeKind::NdNe => if a != b {
                    1
                } else {
                    0
                },
                _ => 0,
            }
        },
        _ => 0,
    }
}

/// The store after assigning a pure expression's value to a local.
pub open spec fn assign_step(store: Map<usize, u64>, x: usize, e: Node) -> Map<usize, u64> {
    store.insert(x, eval_pure(e, store))
}

/// A pure expression's value does not depend on a local it does not
/// read.
pub proof fn lemma_eval_frame(n: Node, store: Map<usize, u64>, x: usize, v: u64)
    requires
        pure_int_expr(n),
        !expr_reads(n).contains(x),
    ensures
        eval_pure(n, store.insert(x, v)) == eval_pure(n, store),
    decreases n,
{
    match n {
        Node::Bin { op, lhs, rhs } => {
            lemma_eval_frame(*lhs, store, x, v);
            lemma_eval_frame(*rhs, store, x, v);
        },
        _ => {},
    }
}

/// Commuting independent statements does not change the final store
/// when no side effects are involved: two assignments of pure integer
/// expressions to distinct locals, neither expression reading the other
/// assignment's target, produce the same store in either order.
pub proof fn lemma_commute_independent_assignments(
    store: Map<usize, u64>,
    x: usize,
    e1: Node,
    y: usize,
    e2: Node,
)
    requires
        pure_int_expr(e1),
        pure_int_expr(e2),
        x != y,
        !expr_reads(e1).contains(y),
        !expr_reads(e2).contains(x),
    ensures
        assign_step(assign_step(store, x, e1), y, e2) == assign_step(
            assign_step(store, y, e2),
            x,
            e1,
        ),
{
    lemma_eval_frame(e2, store, x, eval_pure(e1, store));
    lemma_eval_frame(e1, store, y, eval_pure(e2, store));
    assert(assign_step(assign_step(store, x, e1), y, e2) =~= assign_step(
        assign_step(store, y, e2),
        x,
        e1,
    ));
}

} // verus!

//! The recursive-descent parser and typer.
//!
//! The parser walks the token vector with a cursor and builds a typed
//! abstract syntax tree of functions with resolved locals. The whole
//! parse is specified by the family of functions around
//! `parse_program`: mathematical functions from the token models to the
//! derivation — the model of the tree that the grammar yields, or
//! nothing when the input is rejected. Every production of the
//! executable parser is proved to succeed exactly when its
//! specification derives, and to build exactly the derived tree at
//! exactly the specified cursor position.
//!
//! Types are a function of the tree: `ty_of` gives each expression node
//! its type following the typing closure (binary arithmetic and
//! assignment inherit the left operand's type, a local carries its
//! declared type, address-of yields a pointer to the operand's type,
//! dereference yields the operand type's base, numbers and calls are
//! integers). `check_type` computes that type executably and reports
//! the one way the closure can fail: a dereference of a value whose
//! type has no base.

use vstd::prelude::*;

use crate::errors::CompileError;
use crate::tokenize::{Token, TokenKind, TokenModel};
use crate::types::{Type, TypeKind};

verus! {

broadcast use vstd::std_specs::vec::group_vec_axioms;

/// The kind tag of an AST node.
#[derive(PartialEq, Eq, Structural, Clone, Copy, Debug)]
pub enum NodeKind {
    /// `+`
    NdAdd,
    /// `-`
    NdSub,
    /// `*`
    NdMul,
    /// `/`
    NdDiv,
    /// integer literal
    NdNum,
    /// `>` (more than)
    NdMt,
    /// `<` (less than)
    NdLt,
    /// `>=` (or more)
    NdOm,
    /// `<=` (or less)
    NdOl,
    /// `==`
    NdEq,
    /// `!=`
    NdNe,
    /// `=` (assignment)
    NdAs,
    /// local variable
    NdLv,
    /// `&` (address-of)
    NdAddr,
    /// `*` (dereference)
    NdDeref,
    /// `if`
    NdIf,
    /// `while`
    NdWhile,
    /// `for`
    NdFor,
    /// `{ ... }` block
    NdBlock,
    /// function call
    NdFunc,
    /// `return`
    NdRt,
}

/// A resolved local variable: its declared type, its name, and its frame
/// index, the 0-based position in its function's locals vector in
/// insertion order. Turning a frame index into a stack byte offset is
/// the code generator's business.
pub struct LVar {
    pub ty: Type,
    pub name: String,
    pub id: usize,
}

impl Clone for LVar {
    fn clone(&self) -> (res: Self)
        ensures
            res == *self,
    {
        LVar { ty: self.ty.clone(), name: self.name.clone(), id: self.id }
    }
}

impl LVar {
    /// A fresh local with the given declared type, name, and frame index.
    pub fn new_lvar(ty: Type, name: String, id: usize) -> (v: LVar)
        ensures
            v == (LVar { ty, name, id }),
    {
        LVar { ty, name, id }
    }
}

/// A tagged AST node with per-kind payloads.
///
/// The binary kinds (`NdAdd` through `NdNe`, and the assignment `NdAs`)
/// share the `Bin` variant; every other kind has a variant of its own.
#[allow(inconsistent_fields)]
pub enum Node {
    /// An integer literal.
    Num { val: u32 },
    /// A reference to a local variable; carries the variable's type.
    Lv { lvar: LVar },
    /// `&` applied to an lvalue-producing operand.
    Addr { lhs: Box<Node> },
    /// `*` applied to a pointer-typed operand.
    Deref { lhs: Box<Node> },
    /// A binary operator or an assignment.
    Bin { op: NodeKind, lhs: Box<Node>, rhs: Box<Node> },
    /// `if (cond) body` with an optional `else els`.
    If { cond: Box<Node>, body: Box<Node>, els: Option<Box<Node>> },
    /// `while (cond) body`.
    While { cond: Box<Node>, body: Box<Node> },
    /// `for (preop; cond; postop) body`, each header slot optional.
    For {
        preop: Option<Box<Node>>,
        cond: Option<Box<Node>>,
        postop: Option<Box<Node>>,
        body: Box<Node>,
    },
    /// `{ ... }`: an ordered list of statement nodes.
    Block { blocks: Vec<Node> },
    /// A call: function name and ordered argument expressions.
    Func { funcname: String, args: Vec<Node> },
    /// `return` with its value expression.
    Rt { lhs: Box<Node> },
}

impl Node {
    /// The kind tag of this node.
    pub open spec fn spec_kind(&self) -> NodeKind {
        match self {
            Node::Num { .. } => NodeKind::NdNum,
            Node::Lv { .. } => NodeKind::NdLv,
            Node::Addr { .. } => NodeKind::NdAddr,
            Node::Deref { .. } => NodeKind::NdDeref,
            Node::Bin { op, .. } => *op,
            Node::If { .. } => NodeKind::NdIf,
            Node::While { .. } => NodeKind::NdWhile,
            Node::For { .. } => NodeKind::NdFor,
            Node::Block { .. } => NodeKind::NdBlock,
            Node::Func { .. } => NodeKind::NdFunc,
            Node::Rt { .. } => NodeKind::NdRt,
        }
    }

    /// The kind tag of this node.
    #[verifier::when_used_as_spec(spec_kind)]
    pub fn kind(&self) -> (k: NodeKind)
        ensures
            k == self.spec_kind(),
    {
        match self {
            Node::Num { .. } => NodeKind::NdNum,
            Node::Lv { .. } => NodeKind::NdLv,
            Node::Addr { .. } => NodeKind::NdAddr,
            Node::Deref { .. } => NodeKind::NdDeref,
            Node::Bin { op, .. } => *op,
            Node::If { .. } => NodeKind::NdIf,
            Node::While { .. } => NodeKind::NdWhile,
            Node::For { .. } => NodeKind::NdFor,
            Node::Block { .. } => NodeKind::NdBlock,
            Node::Func { .. } => NodeKind::NdFunc,
            Node::Rt { .. } => NodeKind::NdRt,
        }
    }
}

/// True for the kinds that the `Bin` variant may carry: the arithmetic
/// and comparison operators and the assignment.
pub open spec fn is_binary_kind(k: NodeKind) -> bool {
    match k {
        NodeKind::NdAdd | NodeKind::NdSub | NodeKind::NdMul | NodeKind::NdDiv | NodeKind::NdMt
            | NodeKind::NdLt | NodeKind::NdOm | NodeKind::NdOl | NodeKind::NdEq | NodeKind::NdNe
            | NodeKind::NdAs => true,
        _ => false,
    }
}

/// True when the tree is made of expression kinds only: literals, locals,
/// address-of, dereference, binary operators and assignments, and calls.
pub open spec fn expr_tree(n: Node) -> bool
    decreases n,
{
    match n {
        Node::Num { .. } => true,
        Node::Lv { .. } => true,
        Node::Addr { lhs } => expr_tree(*lhs),
        Node::Deref { lhs } => expr_tree(*lhs),
        Node::Bin { op, lhs, rhs } => is_binary_kind(op) && expr_tree(*lhs) && expr_tree(*rhs),
        Node::Func { args, .. } => all_expr_trees(args@),
        _ => false,
    }
}

/// True when every node of the sequence is an expression tree.
pub open spec fn all_expr_trees(s: Seq<Node>) -> bool
    decreases s,
{
    s.len() == 0 || (expr_tree(s[0]) && all_expr_trees(s.subrange(1, s.len() as int)))
}

/// True when the tree is a statement as the grammar produces it: control
/// flow over expression conditions and statement bodies, a return of an
/// expression, or a bare expression.
pub open spec fn stmt_tree(n: Node) -> bool
    decreases n,
{
    match n {
        Node::If { cond, body, els } => {
            &&& expr_tree(*cond)
            &&& stmt_tree(*body)
            &&& (els matches Some(e) ==> stmt_tree(*e))
        },
        Node::While { cond, body } => expr_tree(*cond) && stmt_tree(*body),
        Node::For { preop, cond, postop, body } => {
            &&& (preop matches Some(e) ==> expr_tree(*e))
            &&& (cond matches Some(e) ==> expr_tree(*e))
            &&& (postop matches Some(e) ==> expr_tree(*e))
            &&& stmt_tree(*body)
        },
        Node::Block { blocks } => all_stmt_trees(blocks@),
        Node::Rt { lhs } => expr_tree(*lhs),
        _ => expr_tree(n),
    }
}

/// True when every node of the sequence is a statement tree.
pub open spec fn all_stmt_trees(s: Seq<Node>) -> bool
    decreases s,
{
    s.len() == 0 || (stmt_tree(s[0]) && all_stmt_trees(s.subrange(1, s.len() as int)))
}

/// True when every local reference in the tree has a frame index below
/// `k`; a function's statements satisfy this for `k` the length of its
/// locals vector.
pub open spec fn lvars_below(n: Node, k: nat) -> bool
    decreases n,
{
    match n {
        Node::Num { .. } => true,
        Node::Lv { lvar } => lvar.id < k,
        Node::Addr { lhs } => lvars_below(*lhs, k),
        Node::Deref { lhs } => lvars_below(*lhs, k),
        Node::Bin { lhs, rhs, .. } => lvars_below(*lhs, k) && lvars_below(*rhs, k),
        Node::If { cond, body, els } => {
            &&& lvars_below(*cond, k)
            &&& lvars_below(*body, k)
            &&& (els matches Some(e) ==> lvars_below(*e, k))
        },
        Node::While { cond, body } => lvars_below(*cond, k) && lvars_below(*body, k),
        Node::For { preop, cond, postop, body } => {
            &&& (preop matches Some(e) ==> lvars_below(*e, k))
            &&& (cond matches Some(e) ==> lvars_below(*e, k))
            &&& (postop matches Some(e) ==> lvars_below(*e, k))
            &&& lvars_below(*body, k)
        },
        Node::Block { blocks } => all_lvars_below(blocks@, k),
        Node::Func { args, .. } => all_lvars_below(args@, k),
        Node::Rt { lhs } => lvars_below(*lhs, k),
    }
}

/// True when every node of the sequence keeps its local references below
/// `k`.
pub open spec fn all_lvars_below(s: Seq<Node>, k: nat) -> bool
    decreases s,
{
    s.len() == 0 || (lvars_below(s[0], k) && all_lvars_below(s.subrange(1, s.len() as int), k))
}

/// The type of an expression node under the typing closure. Statement
/// kinds, and a dereference whose operand type has no base, give the
/// `None` sentinel type; `typed_ok` says when the closure succeeds.
pub open spec fn ty_of(n: Node) -> Type
    decreases n,
{
    match n {
        Node::Num { .. } => Type::spec_int(),
        Node::Func { .. } => Type::spec_int(),
        Node::Lv { lvar } => lvar.ty,
        Node::Addr { lhs } => Type {
            kind: TypeKind::TyPtr,
            ptr_to: Some(Box::new(ty_of(*lhs))),
            size: 8,
            size_array: 0,
        },
        Node::Deref { lhs } => match ty_of(*lhs).ptr_to {
            Some(b) => *b,
            None => Type::spec_none(),
        },
        Node::Bin { lhs, .. } => ty_of(*lhs),
        _ => Type::spec_none(),
    }
}

/// True when the typing closure succeeds on every node of the tree: the
/// one failing case is a dereference of an operand whose type has no
/// base.
pub open spec fn typed_ok(n: Node) -> bool
    decreases n,
{
    match n {
        Node::Num { .. } => true,
        Node::Lv { .. } => true,
        Node::Addr { lhs } => typed_ok(*lhs),
        Node::Deref { lhs } => typed_ok(*lhs) && ty_of(*lhs).ptr_to is Some,
        Node::Bin { lhs, rhs, .. } => typed_ok(*lhs) && typed_ok(*rhs),
        Node::If { cond, body, els } => {
            &&& typed_ok(*cond)
            &&& typed_ok(*body)
            &&& (els matches Some(e) ==> typed_ok(*e))
        },
        Node::While { cond, body } => typed_ok(*cond) && typed_ok(*body),
        Node::For { preop, cond, postop, body } => {
            &&& (preop matches Some(e) ==> typed_ok(*e))
            &&& (cond matches Some(e) ==> typed_ok(*e))
            &&& (postop matches Some(e) ==> typed_ok(*e))
            &&& typed_ok(*body)
        },
        Node::Block { blocks } => all_typed_ok(blocks@),
        Node::Func { args, .. } => all_typed_ok(args@),
        Node::Rt { lhs } => typed_ok(*lhs),
    }
}

/// True when the typing closure succeeds on every node of the sequence.
pub open spec fn all_typed_ok(s: Seq<Node>) -> bool
    decreases s,
{
    s.len() == 0 || (typed_ok(s[0]) && all_typed_ok(s.subrange(1, s.len() as int)))
}

impl Node {
    /// A binary node of the given kind over two operands.
    pub fn new_binary(op: NodeKind, lhs: Box<Node>, rhs: Box<Node>) -> (n: Node)
        ensures
            n == (Node::Bin { op, lhs, rhs }),
    {
        Node::Bin { op, lhs, rhs }
    }

    /// A unary node of the given kind: address-of, dereference, or
    /// return.
    pub fn new_unary(op: NodeKind, expr: Box<Node>) -> (n: Node)
        requires
            op == NodeKind::NdAddr || op == NodeKind::NdDeref || op == NodeKind::NdRt,
        ensures
            op == NodeKind::NdAddr ==> n == (Node::Addr { lhs: expr }),
            op == NodeKind::NdDeref ==> n == (Node::Deref { lhs: expr }),
            op == NodeKind::NdRt ==> n == (Node::Rt { lhs: expr }),
    {
        match op {
            NodeKind::NdAddr => Node::Addr { lhs: expr },
            NodeKind::NdDeref => Node::Deref { lhs: expr },
            _ => Node::Rt { lhs: expr },
        }
    }

    /// A reference to a resolved local.
    pub fn new_node_lv(lvar: LVar) -> (n: Node)
        ensures
            n == (Node::Lv { lvar }),
    {
        Node::Lv { lvar }
    }

    /// An integer literal.
    pub fn new_node_num(val: u32) -> (n: Node)
        ensures
            n == (Node::Num { val }),
    {
        Node::Num { val }
    }

    /// The node that `+` builds once both sides are typed: integers add
    /// with an `Add` node; otherwise, when the left side is an address-of
    /// node the right side is first scaled by 8, and the emitted kind is
    /// `Sub` — the deliberate inversion of this compiler's pointer
    /// algebra, which the code generator must not second-guess.
    pub open spec fn spec_new_add(lhs: Node, rhs: Node) -> Node {
        if ty_of(lhs).kind == TypeKind::TyInt && ty_of(rhs).kind == TypeKind::TyInt {
            Node::Bin { op: NodeKind::NdAdd, lhs: Box::new(lhs), rhs: Box::new(rhs) }
        } else if lhs.spec_kind() == NodeKind::NdAddr {
            Node::Bin {
                op: NodeKind::NdSub,
                lhs: Box::new(lhs),
                rhs: Box::new(
                    Node::Bin {
                        op: NodeKind::NdMul,
                        lhs: Box::new(rhs),
                        rhs: Box::new(Node::Num { val: 8 }),
                    },
                ),
            }
        } else {
            Node::Bin { op: NodeKind::NdSub, lhs: Box::new(lhs), rhs: Box::new(rhs) }
        }
    }

    /// The node that `-` builds once both sides are typed: the mirror
    /// image of `spec_new_add`, emitting `Sub` for integers and `Add`
    /// otherwise.
    pub open spec fn spec_new_sub(lhs: Node, rhs: Node) -> Node {
        if ty_of(lhs).kind == TypeKind::TyInt && ty_of(rhs).kind == TypeKind::TyInt {
            Node::Bin { op: NodeKind::NdSub, lhs: Box::new(lhs), rhs: Box::new(rhs) }
        } else if lhs.spec_kind() == NodeKind::NdAddr {
            Node::Bin {
                op: NodeKind::NdAdd,
                lhs: Box::new(lhs),
                rhs: Box::new(
                    Node::Bin {
                        op: NodeKind::NdMul,
                        lhs: Box::new(rhs),
                        rhs: Box::new(Node::Num { val: 8 }),
                    },
                ),
            }
        } else {
            Node::Bin { op: NodeKind::NdAdd, lhs: Box::new(lhs), rhs: Box::new(rhs) }
        }
    }

    /// Builds the node for a source-level `+`, typing both sides first.
    pub fn new_add(lhs: Box<Node>, rhs: Box<Node>) -> (r: Result<Node, CompileError>)
        ensures
            r is Ok <==> typed_ok(*lhs) && typed_ok(*rhs),
            r matches Ok(n) ==> n == Node::spec_new_add(*lhs, *rhs),
    {
        let lty = lhs.check_type()?;
        let rty = rhs.check_type()?;
        if lty.is_integer() && rty.is_integer() {
            return Ok(Node::Bin { op: NodeKind::NdAdd, lhs, rhs });
        }
        if lhs.kind() == NodeKind::NdAddr {
            let scaled = Node::Bin {
                op: NodeKind::NdMul,
                lhs: rhs,
                rhs: Box::new(Node::Num { val: 8 }),
            };
            return Ok(Node::Bin { op: NodeKind::NdSub, lhs, rhs: Box::new(scaled) });
        }
        Ok(Node::Bin { op: NodeKind::NdSub, lhs, rhs })
    }

    /// Builds the node for a source-level `-`, typing both sides first.
    pub fn new_sub(lhs: Box<Node>, rhs: Box<Node>) -> (r: Result<Node, CompileError>)
        ensures
            r is Ok <==> typed_ok(*lhs) && typed_ok(*rhs),
            r matches Ok(n) ==> n == Node::spec_new_sub(*lhs, *rhs),
    {
        let lty = lhs.check_type()?;
        let rty = rhs.check_type()?;
        if lty.is_integer() && rty.is_integer() {
            return Ok(Node::Bin { op: NodeKind::NdSub, lhs, rhs });
        }
        if lhs.kind() == NodeKind::NdAddr {
            let scaled = Node::Bin {
                op: NodeKind::NdMul,
                lhs: rhs,
                rhs: Box::new(Node::Num { val: 8 }),
            };
            return Ok(Node::Bin { op: NodeKind::NdAdd, lhs, rhs: Box::new(scaled) });
        }
        Ok(Node::Bin { op: NodeKind::NdAdd, lhs, rhs })
    }

    /// Runs the typing closure over the tree and returns this node's
    /// type. Fails exactly when some dereference in the tree is applied
    /// to an operand whose type has no base.
    pub fn check_type(&self) -> (r: Result<Type, CompileError>)
        ensures
            r is Ok <==> typed_ok(*self),
            r matches Ok(t) ==> t == ty_of(*self),
        decreases *self,
    {
        match self {
            Node::Num { .. } => Ok(Type::new_int()),
            Node::Func { args, .. } => {
                check_types_all(args)?;
                Ok(Type::new_int())
            },
            Node::Lv { lvar } => Ok(lvar.ty.clone()),
            Node::Addr { lhs } => {
                let t = lhs.check_type()?;
                Ok(t.pointer_to())
            },
            Node::Deref { lhs } => {
                let t = lhs.check_type()?;
                match t.ptr_to {
                    Some(b) => Ok(*b),
                    None => Err(
                        CompileError::ParseError(
                            String::from_str("dereference of a value that is not a pointer"),
                        ),
                    ),
                }
            },
            Node::Bin { lhs, rhs, .. } => {
                let t = lhs.check_type()?;
                rhs.check_type()?;
                Ok(t)
            },
            Node::If { cond, body, els } => {
                cond.check_type()?;
                body.check_type()?;
                match els {
                    Some(e) => {
                        e.check_type()?;
                    },
                    None => {},
                }
                Ok(Type::new_none())
            },
            Node::While { cond, body } => {
                cond.check_type()?;
                body.check_type()?;
                Ok(Type::new_none())
            },
            Node::For { preop, cond, postop, body } => {
                match preop {
                    Some(e) => {
                        e.check_type()?;
                    },
                    None => {},
                }
                match cond {
                    Some(e) => {
                        e.check_type()?;
                    },
                    None => {},
                }
                match postop {
                    Some(e) => {
                        e.check_type()?;
                    },
                    None => {},
                }
                body.check_type()?;
                Ok(Type::new_none())
            },
            Node::Block { blocks } => {
                check_types_all(blocks)?;
                Ok(Type::new_none())
            },
            Node::Rt { lhs } => {
                lhs.check_type()?;
                Ok(Type::new_none())
            },
        }
    }
}

/// A parsed function: return type kind, name, parameter count, the
/// ordered locals, and the body statements.
///
/// The first `paramnum` entries of `locals` are the parameters in
/// declaration order; locals are append-only while the function is
/// parsed and frozen afterwards.
pub struct Function {
    pub ty: TypeKind,
    pub name: String,
    pub paramnum: usize,
    pub locals: Vec<LVar>,
    pub body: Vec<Node>,
}

impl Function {
    /// What the parser guarantees of every function it builds: the
    /// parameter count is covered by the locals vector, each local holds
    /// its own frame index with a well-formed type of size at most 8
    /// (the grammar declares only `int` and pointer chains), and every
    /// body statement is a typed statement tree whose local references
    /// stay inside the locals vector.
    pub open spec fn wf(self) -> bool {
        &&& self.paramnum <= self.locals@.len()
        &&& forall|i: int|
            0 <= i < self.locals@.len() ==> {
                &&& (#[trigger] self.locals@[i]).id == i
                &&& self.locals@[i].ty.wf()
                &&& self.locals@[i].ty.size <= 8
            }
        &&& forall|i: int|
            0 <= i < self.body@.len() ==> {
                &&& stmt_tree(#[trigger] self.body@[i])
                &&& typed_ok(self.body@[i])
                &&& lvars_below(self.body@[i], self.locals@.len() as nat)
            }
    }
}

/// The recursive-descent parser: a cursor into the token vector, the
/// scratch locals of the function being parsed, and the finished
/// functions.
pub struct Parser {
    pub tokens: Vec<Token>,
    pub pos: usize,
    pub temp_locals: Vec<LVar>,
    pub functions: Vec<Function>,
}

/// Runs the typing closure over every node of a list.
fn check_types_all(nodes: &Vec<Node>) -> (r: Result<(), CompileError>)
    ensures
        r is Ok <==> all_typed_ok(nodes@),
    decreases nodes@,
{
    let ghost s = nodes@;
    let mut i: usize = 0;
    while i < nodes.len()
        invariant
            i <= nodes.len(),
            s == nodes@,
            forall|j: int| 0 <= j < i ==> typed_ok(s[j]),
        decreases nodes.len() - i,
    {
        let r = nodes[i].check_type();
        if r.is_err() {
            proof {
                lemma_all_typed_ok_index(s, i as int);
            }
            return Err(
                CompileError::ParseError(
                    String::from_str("dereference of a value that is not a pointer"),
                ),
            );
        }
        i = i + 1;
    }
    proof {
        lemma_all_typed_ok_forall(s);
    }
    Ok(())
}

/// `all_typed_ok` of a sequence implies `typed_ok` of each element.
proof fn lemma_all_typed_ok_index(s: Seq<Node>, i: int)
    requires
        0 <= i < s.len(),
    ensures
        all_typed_ok(s) ==> typed_ok(s[i]),
    decreases s.len(),
{
    if s.len() > 0 && i > 0 {
        lemma_all_typed_ok_index(s.subrange(1, s.len() as int), i - 1);
        assert(s.subrange(1, s.len() as int)[i - 1] == s[i]);
    }
}

/// If every element of the sequence is typed, so is the whole sequence.
proof fn lemma_all_typed_ok_forall(s: Seq<Node>)
    requires
        forall|j: int| 0 <= j < s.len() ==> typed_ok(s[j]),
    ensures
        all_typed_ok(s),
    decreases s.len(),
{
    if s.len() > 0 {
        let t = s.subrange(1, s.len() as int);
        assert(forall|j: int| 0 <= j < t.len() ==> t[j] == s[j + 1]);
        lemma_all_typed_ok_forall(t);
    }
}


/// Well-formedness of a locals vector: each local carries its own frame
/// index and a well-formed declared type of size at most 8 (the grammar
/// declares only `int` and pointer chains).
pub open spec fn locals_wf(locals: Seq<LVar>) -> bool {
    forall|i: int|
        0 <= i < locals.len() ==> {
            &&& (#[trigger] locals[i]).id == i
            &&& locals[i].ty.wf()
            &&& locals[i].ty.size <= 8
        }
}

/// The first local with the given name, scanning in declaration order.
pub open spec fn find_lvar_spec(locals: Seq<LVar>, name: Seq<char>) -> Option<LVar>
    decreases locals,
{
    if locals.len() == 0 {
        None
    } else if locals[0].name@ == name {
        Some(locals[0])
    } else {
        find_lvar_spec(locals.subrange(1, locals.len() as int), name)
    }
}

/// A found local is an entry of the vector.
proof fn lemma_find_lvar_spec_member(locals: Seq<LVar>, name: Seq<char>)
    ensures
        find_lvar_spec(locals, name) matches Some(v) ==> exists|i: int|
            0 <= i < locals.len() && locals[i] == v,
    decreases locals,
{
    if locals.len() > 0 && locals[0].name@ != name {
        lemma_find_lvar_spec_member(locals.subrange(1, locals.len() as int), name);
        if find_lvar_spec(locals, name) is Some {
            let sub = locals.subrange(1, locals.len() as int);
            let i = choose|i: int|
                0 <= i < sub.len() && sub[i] == find_lvar_spec(locals, name)->0;
            assert(locals[i + 1] == sub[i]);
        }
    }
}

/// Elementwise expression trees make the whole sequence one.
proof fn lemma_all_expr_trees_forall(s: Seq<Node>)
    requires
        forall|j: int| 0 <= j < s.len() ==> expr_tree(#[trigger] s[j]),
    ensures
        all_expr_trees(s),
    decreases s,
{
    if s.len() > 0 {
        let t = s.subrange(1, s.len() as int);
        assert(forall|j: int| 0 <= j < t.len() ==> t[j] == s[j + 1]);
        lemma_all_expr_trees_forall(t);
    }
}

/// Elementwise statement trees make the whole sequence one.
proof fn lemma_all_stmt_trees_forall(s: Seq<Node>)
    requires
        forall|j: int| 0 <= j < s.len() ==> stmt_tree(#[trigger] s[j]),
    ensures
        all_stmt_trees(s),
    decreases s,
{
    if s.len() > 0 {
        let t = s.subrange(1, s.len() as int);
        assert(forall|j: int| 0 <= j < t.len() ==> t[j] == s[j + 1]);
        lemma_all_stmt_trees_forall(t);
    }
}

/// Elementwise bounded local references bound the whole sequence.
proof fn lemma_all_lvars_below_forall(s: Seq<Node>, k: nat)
    requires
        forall|j: int| 0 <= j < s.len() ==> lvars_below(#[trigger] s[j], k),
    ensures
        all_lvars_below(s, k),
    decreases s,
{
    if s.len() > 0 {
        let t = s.subrange(1, s.len() as int);
        assert(forall|j: int| 0 <= j < t.len() ==> t[j] == s[j + 1]);
        lemma_all_lvars_below_forall(t, k);
    }
}

/// A bound on local references stays a bound as the locals vector grows.
pub proof fn lemma_lvars_below_mono(n: Node, k1: nat, k2: nat)
    requires
        lvars_below(n, k1),
        k1 <= k2,
    ensures
        lvars_below(n, k2),
    decreases n,
{
    match n {
        Node::Num { .. } => {},
        Node::Lv { .. } => {},
        Node::Addr { lhs } => lemma_lvars_below_mono(*lhs, k1, k2),
        Node::Deref { lhs } => lemma_lvars_below_mono(*lhs, k1, k2),
        Node::Bin { lhs, rhs, .. } => {
            lemma_lvars_below_mono(*lhs, k1, k2);
            lemma_lvars_below_mono(*rhs, k1, k2);
        },
        Node::If { cond, body, els } => {
            lemma_lvars_below_mono(*cond, k1, k2);
            lemma_lvars_below_mono(*body, k1, k2);
            match els {
                Some(e) => lemma_lvars_below_mono(*e, k1, k2),
                None => {},
            }
        },
        Node::While { cond, body } => {
            lemma_lvars_below_mono(*cond, k1, k2);
            lemma_lvars_below_mono(*body, k1, k2);
        },
        Node::For { preop, cond, postop, body } => {
            match preop {
                Some(e) => lemma_lvars_below_mono(*e, k1, k2),
                None => {},
            }
            match cond {
                Some(e) => lemma_lvars_below_mono(*e, k1, k2),
                None => {},
            }
            match postop {
                Some(e) => lemma_lvars_below_mono(*e, k1, k2),
                None => {},
            }
            lemma_lvars_below_mono(*body, k1, k2);
        },
        Node::Block { blocks } => lemma_all_lvars_below_mono(blocks@, k1, k2),
        Node::Func { args, .. } => lemma_all_lvars_below_mono(args@, k1, k2),
        Node::Rt { lhs } => lemma_lvars_below_mono(*lhs, k1, k2),
    }
}

/// The sequence form of `lemma_lvars_below_mono`.
pub proof fn lemma_all_lvars_below_mono(s: Seq<Node>, k1: nat, k2: nat)
    requires
        all_lvars_below(s, k1),
        k1 <= k2,
    ensures
        all_lvars_below(s, k2),
    decreases s,
{
    if s.len() > 0 {
        lemma_lvars_below_mono(s[0], k1, k2);
        lemma_all_lvars_below_mono(s.subrange(1, s.len() as int), k1, k2);
    }
}

/// Compares two string slices by contents.
fn str_eq(a: &str, b: &str) -> (r: bool)
    ensures
        r == (a@ == b@),
{
    let x = a.to_owned();
    let y = b.to_owned();
    x == y
}

impl Parser {
    /// The parser's running invariant: the cursor stays inside the
    /// token vector (one past the end at most) and the scratch locals
    /// are well-formed.
    pub open spec fn wf(self) -> bool {
        &&& self.pos <= self.tokens@.len()
        &&& locals_wf(self.temp_locals@)
    }

    /// A parser at the start of the given token vector.
    pub fn new(tokens: Vec<Token>) -> (p: Parser)
        ensures
            p.tokens == tokens,
            p.pos == 0,
            p.temp_locals@.len() == 0,
            p.functions@.len() == 0,
            p.wf(),
    {
        Parser { tokens, pos: 0, temp_locals: Vec::new(), functions: Vec::new() }
    }

    /// If the current token's lexeme is `op`, advances past it and
    /// reports true; otherwise leaves the cursor alone.
    fn consume(&mut self, op: &str) -> (r: bool)
        requires
            old(self).wf(),
        ensures
            final(self).wf(),
            final(self).tokens == old(self).tokens,
            final(self).functions == old(self).functions,
            final(self).temp_locals == old(self).temp_locals,
            r == (old(self).pos < old(self).tokens@.len()
                && old(self).tokens@[old(self).pos as int].op@ == op@),
            r ==> final(self).pos == old(self).pos + 1,
            !r ==> final(self).pos == old(self).pos,
    {
        if self.pos < self.tokens.len() && str_eq(self.tokens[self.pos].op.as_str(), op) {
            self.pos = self.pos + 1;
            true
        } else {
            false
        }
    }

    /// Demands the given lexeme at the cursor; a missing one is the
    /// fatal "expected ... but got ..." diagnostic.
    fn expect(&mut self, op: &str) -> (r: Result<(), CompileError>)
        requires
            old(self).wf(),
        ensures
            final(self).wf(),
            final(self).tokens == old(self).tokens,
            final(self).functions == old(self).functions,
            final(self).temp_locals == old(self).temp_locals,
            r is Ok <==> old(self).pos < old(self).tokens@.len()
                && old(self).tokens@[old(self).pos as int].op@ == op@,
            r is Ok ==> final(self).pos == old(self).pos + 1,
            r is Err ==> final(self).pos == old(self).pos,
    {
        if self.consume(op) {
            Ok(())
        } else {
            let mut msg = String::from_str("expected ");
            msg.append(op);
            msg.append(" but got ");
            if self.pos < self.tokens.len() {
                msg.append(self.tokens[self.pos].op.as_str());
            } else {
                msg.append("end of input");
            }
            Err(CompileError::ParseError(msg))
        }
    }

    /// Demands an identifier at the cursor and returns its lexeme.
    fn expect_ident(&mut self) -> (r: Result<String, CompileError>)
        requires
            old(self).wf(),
        ensures
            final(self).wf(),
            final(self).tokens == old(self).tokens,
            final(self).functions == old(self).functions,
            final(self).temp_locals == old(self).temp_locals,
            r is Ok <==> old(self).pos < old(self).tokens@.len()
                && old(self).tokens@[old(self).pos as int].kind == TokenKind::TkIdent,
            r matches Ok(name) ==> name@ == old(self).tokens@[old(self).pos as int].op@
                && final(self).pos == old(self).pos + 1,
            r is Err ==> final(self).pos == old(self).pos,
    {
        if self.pos < self.tokens.len() && self.tokens[self.pos].kind == TokenKind::TkIdent {
            let ident = self.tokens[self.pos].op.clone();
            self.pos = self.pos + 1;
            Ok(ident)
        } else {
            let mut msg = String::from_str("expected identifier but got ");
            if self.pos < self.tokens.len() {
                msg.append(self.tokens[self.pos].op.as_str());
            } else {
                msg.append("end of input");
            }
            Err(CompileError::ParseError(msg))
        }
    }

    /// Reads an optional type: `int` followed by any number of `*`.
    /// Without a leading `int` the cursor stays put and the `None`
    /// sentinel type comes back.
    #[verifier::loop_isolation(false)]
    fn consume_type(&mut self) -> (t: Type)
        requires
            old(self).wf(),
        ensures
            final(self).wf(),
            final(self).tokens == old(self).tokens,
            final(self).functions == old(self).functions,
            final(self).temp_locals == old(self).temp_locals,
            final(self).pos >= old(self).pos,
            t.wf(),
            t.kind == TypeKind::TyNone || t.kind == TypeKind::TyInt || t.kind == TypeKind::TyPtr,
            t.size <= 8,
            t.kind == TypeKind::TyNone <==> final(self).pos == old(self).pos,
            t.kind == TypeKind::TyNone ==> t == Type::spec_none(),
            old(self).pos < old(self).tokens@.len() && old(self).tokens@[old(self).pos as int].op@
                == "int"@ ==> t.kind != TypeKind::TyNone,
            t.kind != TypeKind::TyNone ==> old(self).pos < old(self).tokens@.len() && old(
                self,
            ).tokens@[old(self).pos as int].op@ == "int"@,
            ({
                let tp = parse_type(token_models(old(self).tokens@), old(self).pos as int);
                t == tp.0 && final(self).pos == tp.1
            }),
    {
        let ghost m = token_models(self.tokens@);
        let ghost pos0 = self.pos as int;
        proof {
            lemma_token_models(self.tokens@);
        }
        let mut ty = Type::new_none();
        if self.consume("int") {
            ty = Type::new_int();
            while self.consume("*")
                invariant
                    self.wf(),
                    self.tokens == old(self).tokens,
                    self.functions == old(self).functions,
                    self.temp_locals == old(self).temp_locals,
                    self.pos > old(self).pos,
                    ty.wf(),
                    ty.kind == TypeKind::TyInt || ty.kind == TypeKind::TyPtr,
                    ty.size <= 8,
                    parse_type(m, pos0) == parse_type_stars(m, self.pos as int, ty),
                decreases self.tokens@.len() - self.pos,
            {
                ty = ty.pointer_to();
            }
        }
        ty
    }

    /// Looks the name up among the declared locals of the current
    /// function; an unknown name is the fatal "does not match any local
    /// variable" diagnostic.
    #[verifier::loop_isolation(false)]
    fn find_lvar(&mut self, name: String) -> (r: Result<LVar, CompileError>)
        requires
            old(self).wf(),
        ensures
            *final(self) == *old(self),
            r is Ok <==> find_lvar_spec(old(self).temp_locals@, name@) is Some,
            r matches Ok(v) ==> Some(v) == find_lvar_spec(old(self).temp_locals@, name@)
                && v.id < old(self).temp_locals@.len(),
    {
        let ghost locs = self.temp_locals@;
        proof {
            assert(locs.subrange(0, locs.len() as int) =~= locs);
        }
        let mut i: usize = 0;
        while i < self.temp_locals.len()
            invariant
                i <= locs.len(),
                locs == self.temp_locals@,
                locals_wf(locs),
                find_lvar_spec(locs.subrange(i as int, locs.len() as int), name@)
                    == find_lvar_spec(locs, name@),
                forall|j: int| 0 <= j < i ==> (#[trigger] locs[j]).name@ != name@,
            decreases locs.len() - i,
        {
            proof {
                let sub = locs.subrange(i as int, locs.len() as int);
                assert(sub[0] == locs[i as int]);
                assert(sub.subrange(1, sub.len() as int) =~= locs.subrange(
                    i as int + 1,
                    locs.len() as int,
                ));
            }
            if str_eq(self.temp_locals[i].name.as_str(), name.as_str()) {
                let v = self.temp_locals[i].clone();
                return Ok(v);
            }
            i = i + 1;
        }
        proof {
            assert(locs.subrange(locs.len() as int, locs.len() as int) =~= Seq::<LVar>::empty());
        }
        Err(CompileError::ParseError(String::from_str("Does not match any local variable")))
    }

    /// The comma-separated call arguments up to the closing
    /// parenthesis; each argument parses at the additive level, so an
    /// assignment inside an argument must be parenthesized.
    #[verifier::loop_isolation(false)]
    fn funcargs(&mut self) -> (r: Result<Vec<Node>, CompileError>)
        requires
            old(self).wf(),
        ensures
            final(self).wf(),
            final(self).tokens == old(self).tokens,
            final(self).functions == old(self).functions,
            final(self).temp_locals == old(self).temp_locals,
            final(self).pos >= old(self).pos,
            r matches Ok(args) ==> all_expr_trees(args@) && all_lvars_below(
                args@,
                final(self).temp_locals@.len() as nat,
            ) && final(self).pos > old(self).pos,
            ({
                let sp = parse_funcargs(
                    token_models(old(self).tokens@),
                    lvar_models(old(self).temp_locals@),
                    old(self).pos as int,
                );
                &&& (r is Ok <==> sp is Some)
                &&& (r matches Ok(args) ==> sp matches Some(pr) && node_models(args@) == pr.0
                    && final(self).pos == pr.1)
            }),
        decreases old(self).tokens@.len() - old(self).pos, 5int, 0int,
    {
        let ghost m = token_models(self.tokens@);
        let ghost ls0 = lvar_models(self.temp_locals@);
        let ghost pos0 = self.pos as int;
        proof {
            lemma_token_models(self.tokens@);
            lemma_lvar_models(self.temp_locals@);
        }
        let mut args: Vec<Node> = Vec::new();
        if self.consume(")") {
            proof {
                lemma_all_expr_trees_forall(args@);
                lemma_all_lvars_below_forall(args@, self.temp_locals@.len() as nat);
                assert(node_models(args@) =~= Seq::<NodeModel>::empty());
            }
            return Ok(args);
        }
        let first = self.add()?;
        proof {
            lemma_node_models_push(Seq::<Node>::empty(), first);
            assert(node_models(Seq::<Node>::empty()) =~= Seq::<NodeModel>::empty());
            assert(Seq::<NodeModel>::empty().push(node_model(first)) =~= seq![node_model(first)]);
        }
        args.push(first);
        proof {
            assert(args@ =~= Seq::<Node>::empty().push(first));
        }
        while self.consume(",")
            invariant
                self.wf(),
                self.tokens == old(self).tokens,
                self.functions == old(self).functions,
                self.temp_locals == old(self).temp_locals,
                self.pos > old(self).pos,
                forall|j: int| 0 <= j < args@.len() ==> expr_tree(#[trigger] args@[j]),
                forall|j: int|
                    0 <= j < args@.len() ==> lvars_below(
                        #[trigger] args@[j],
                        self.temp_locals@.len() as nat,
                    ),
                parse_funcargs(m, ls0, pos0) == (match parse_args_more(
                    m,
                    ls0,
                    self.pos as int,
                    node_models(args@),
                ) {
                    Some((aa, p2)) => if tok_at(m, p2, ")"@) {
                        Some((aa, p2 + 1))
                    } else {
                        None
                    },
                    None => None,
                }),
            decreases self.tokens@.len() - self.pos,
        {
            let ghost before = args@;
            let next = self.add()?;
            proof {
                lemma_node_models_push(before, next);
            }
            args.push(next);
        }
        self.expect(")")?;
        proof {
            lemma_all_expr_trees_forall(args@);
            lemma_all_lvars_below_forall(args@, self.temp_locals@.len() as nat);
        }
        Ok(args)
    }

    /// `primary = "(" expr ")" | ident ("(" args? ")")? | num`
    fn primary(&mut self) -> (r: Result<Node, CompileError>)
        requires
            old(self).wf(),
        ensures
            final(self).wf(),
            final(self).tokens == old(self).tokens,
            final(self).functions == old(self).functions,
            final(self).temp_locals == old(self).temp_locals,
            final(self).pos >= old(self).pos,
            r matches Ok(n) ==> expr_tree(n) && lvars_below(
                n,
                final(self).temp_locals@.len() as nat,
            ) && final(self).pos > old(self).pos,
            old(self).pos < old(self).tokens@.len() && old(self).tokens@[old(self).pos as int].kind
                == TokenKind::TkNum && old(self).tokens@[old(self).pos as int].op@
                == Seq::<char>::empty() ==> r == Ok::<Node, CompileError>(
                Node::Num { val: old(self).tokens@[old(self).pos as int].val },
            ) && final(self).pos == old(self).pos + 1,
            ({
                let sp = parse_primary(
                    token_models(old(self).tokens@),
                    lvar_models(old(self).temp_locals@),
                    old(self).pos as int,
                );
                &&& (r is Ok <==> sp is Some)
                &&& (r matches Ok(n) ==> sp matches Some(pr) && node_model(n) == pr.0
                    && final(self).pos == pr.1)
            }),
        decreases old(self).tokens@.len() - old(self).pos, 1int, 0int,
    {
        let ghost m = token_models(self.tokens@);
        let ghost ls0 = lvar_models(self.temp_locals@);
        let ghost pos0 = self.pos as int;
        proof {
            lemma_token_models(self.tokens@);
            lemma_lvar_models(self.temp_locals@);
        }
        proof {
            reveal_strlit("(");
            assert("("@.len() == 1);
            assert("("@ != Seq::<char>::empty());
        }
        if self.consume("(") {
            let node = self.expr()?;
            self.expect(")")?;
            proof {
                assert(parse_primary(m, ls0, pos0) matches Some(pr) && node_model(node) == pr.0
                    && self.pos as int == pr.1);
            }
            return Ok(node);
        }
        if self.pos < self.tokens.len() && self.tokens[self.pos].kind == TokenKind::TkIdent {
            let name = self.tokens[self.pos].op.clone();
            self.pos = self.pos + 1;
            if self.consume("(") {
                let args = self.funcargs()?;
                proof {
                    assert(node_model(Node::Func { funcname: name, args }) == NodeModel::Func {
                        funcname: name@,
                        args: node_models(args@),
                    });
                }
                return Ok(Node::Func { funcname: name, args });
            } else {
                proof {
                    lemma_find_lvar_model(self.temp_locals@, name@);
                }
                let lvar = self.find_lvar(name)?;
                proof {
                    lemma_find_lvar_spec_member(self.temp_locals@, lvar.name@);
                    assert(node_model(Node::Lv { lvar }) == NodeModel::Lv {
                        lvar: lvar_model(lvar),
                    });
                }
                return Ok(Node::new_node_lv(lvar));
            }
        }
        if self.pos >= self.tokens.len() {
            return Err(
                CompileError::ParseError(String::from_str("unexpected end of input")),
            );
        }
        let val = self.tokens[self.pos].val;
        self.pos = self.pos + 1;
        Ok(Node::new_node_num(val))
    }

    /// `unary = ("+" | "-" | "&" | "*" | "sizeof") unary | primary`;
    /// unary minus lowers to `0 - operand`, and `sizeof` folds to the
    /// literal 4 for integers and 8 otherwise.
    fn unary(&mut self) -> (r: Result<Node, CompileError>)
        requires
            old(self).wf(),
        ensures
            final(self).wf(),
            final(self).tokens == old(self).tokens,
            final(self).functions == old(self).functions,
            final(self).temp_locals == old(self).temp_locals,
            final(self).pos >= old(self).pos,
            r matches Ok(n) ==> expr_tree(n) && lvars_below(
                n,
                final(self).temp_locals@.len() as nat,
            ) && final(self).pos > old(self).pos,
            ({
                let sp = parse_unary(
                    token_models(old(self).tokens@),
                    lvar_models(old(self).temp_locals@),
                    old(self).pos as int,
                );
                &&& (r is Ok <==> sp is Some)
                &&& (r matches Ok(n) ==> sp matches Some(pr) && node_model(n) == pr.0
                    && final(self).pos == pr.1)
            }),
        decreases old(self).tokens@.len() - old(self).pos, 2int, 0int,
    {
        let ghost m = token_models(self.tokens@);
        let ghost ls0 = lvar_models(self.temp_locals@);
        let ghost pos0 = self.pos as int;
        proof {
            lemma_token_models(self.tokens@);
            lemma_lvar_models(self.temp_locals@);
        }
        if self.consume("+") {
            return self.unary();
        }
        if self.consume("-") {
            let operand = self.unary()?;
            let ghost om = node_model(operand);
            proof {
                assert(expr_tree(Node::Num { val: 0 }));
                assert(lvars_below(Node::Num { val: 0 }, self.temp_locals@.len() as nat));
            }
            let n = Node::new_binary(
                NodeKind::NdSub,
                Box::new(Node::new_node_num(0)),
                Box::new(operand),
            );
            proof {
                assert(node_model(Node::Num { val: 0 }) == NodeModel::Num { val: 0 });
                assert(node_model(n) == NodeModel::Bin {
                    op: NodeKind::NdSub,
                    lhs: Box::new(NodeModel::Num { val: 0 }),
                    rhs: Box::new(om),
                });
            }
            return Ok(n);
        }
        if self.consume("&") {
            let operand = self.unary()?;
            let ghost om = node_model(operand);
            let n = Node::new_unary(NodeKind::NdAddr, Box::new(operand));
            proof {
                assert(node_model(n) == NodeModel::Addr { lhs: Box::new(om) });
            }
            return Ok(n);
        }
        if self.consume("*") {
            let operand = self.unary()?;
            let ghost om = node_model(operand);
            let n = Node::new_unary(NodeKind::NdDeref, Box::new(operand));
            proof {
                assert(node_model(n) == NodeModel::Deref { lhs: Box::new(om) });
            }
            return Ok(n);
        }
        if self.consume("sizeof") {
            let operand = self.unary()?;
            proof {
                lemma_ty_model(operand);
            }
            let t = operand.check_type()?;
            if t.is_integer() {
                return Ok(Node::new_node_num(4));
            }
            return Ok(Node::new_node_num(8));
        }
        self.primary()
    }

    /// `mul = unary (("*" | "/") unary)*`
    #[verifier::loop_isolation(false)]
    fn mul(&mut self) -> (r: Result<Node, CompileError>)
        requires
            old(self).wf(),
        ensures
            final(self).wf(),
            final(self).tokens == old(self).tokens,
            final(self).functions == old(self).functions,
            final(self).temp_locals == old(self).temp_locals,
            final(self).pos >= old(self).pos,
            r matches Ok(n) ==> expr_tree(n) && lvars_below(
                n,
                final(self).temp_locals@.len() as nat,
            ) && final(self).pos > old(self).pos,
            ({
                let sp = parse_mul(
                    token_models(old(self).tokens@),
                    lvar_models(old(self).temp_locals@),
                    old(self).pos as int,
                );
                &&& (r is Ok <==> sp is Some)
                &&& (r matches Ok(n) ==> sp matches Some(pr) && node_model(n) == pr.0
                    && final(self).pos == pr.1)
            }),
        decreases old(self).tokens@.len() - old(self).pos, 3int, 0int,
    {
        let ghost m = token_models(self.tokens@);
        let ghost ls0 = lvar_models(self.temp_locals@);
        let ghost pos0 = self.pos as int;
        proof {
            lemma_token_models(self.tokens@);
            lemma_lvar_models(self.temp_locals@);
        }
        let mut lhs = self.unary()?;
        loop
            invariant
                self.wf(),
                self.tokens == old(self).tokens,
                self.functions == old(self).functions,
                self.temp_locals == old(self).temp_locals,
                self.pos > old(self).pos,
                expr_tree(lhs),
                lvars_below(lhs, self.temp_locals@.len() as nat),
                parse_mul(m, ls0, pos0) == parse_mul_more(m, ls0, node_model(lhs), self.pos as int),
            decreases self.tokens@.len() - self.pos,
        {
            let ghost lm = node_model(lhs);
            if self.consume("*") {
                let rhs = self.unary()?;
                let ghost rm = node_model(rhs);
                lhs = Node::new_binary(NodeKind::NdMul, Box::new(lhs), Box::new(rhs));
                proof {
                    assert(node_model(lhs) == NodeModel::Bin {
                        op: NodeKind::NdMul,
                        lhs: Box::new(lm),
                        rhs: Box::new(rm),
                    });
                }
            } else if self.consume("/") {
                let rhs = self.unary()?;
                let ghost rm = node_model(rhs);
                lhs = Node::new_binary(NodeKind::NdDiv, Box::new(lhs), Box::new(rhs));
                proof {
                    assert(node_model(lhs) == NodeModel::Bin {
                        op: NodeKind::NdDiv,
                        lhs: Box::new(lm),
                        rhs: Box::new(rm),
                    });
                }
            } else {
                break;
            }
        }
        Ok(lhs)
    }

    /// `add = mul (("+" | "-") mul)*`, with the pointer-aware node
    /// builders deciding the emitted kind.
    #[verifier::loop_isolation(false)]
    fn add(&mut self) -> (r: Result<Node, CompileError>)
        requires
            old(self).wf(),
        ensures
            final(self).wf(),
            final(self).tokens == old(self).tokens,
            final(self).functions == old(self).functions,
            final(self).temp_locals == old(self).temp_locals,
            final(self).pos >= old(self).pos,
            r matches Ok(n) ==> expr_tree(n) && lvars_below(
                n,
                final(self).temp_locals@.len() as nat,
            ) && final(self).pos > old(self).pos,
            ({
                let sp = parse_add(
                    token_models(old(self).tokens@),
                    lvar_models(old(self).temp_locals@),
                    old(self).pos as int,
                );
                &&& (r is Ok <==> sp is Some)
                &&& (r matches Ok(n) ==> sp matches Some(pr) && node_model(n) == pr.0
                    && final(self).pos == pr.1)
            }),
        decreases old(self).tokens@.len() - old(self).pos, 4int, 0int,
    {
        let ghost m = token_models(self.tokens@);
        let ghost ls0 = lvar_models(self.temp_locals@);
        let ghost pos0 = self.pos as int;
        proof {
            lemma_token_models(self.tokens@);
            lemma_lvar_models(self.temp_locals@);
        }
        let mut lhs = self.mul()?;
        loop
            invariant
                self.wf(),
                self.tokens == old(self).tokens,
                self.functions == old(self).functions,
                self.temp_locals == old(self).temp_locals,
                self.pos > old(self).pos,
                expr_tree(lhs),
                lvars_below(lhs, self.temp_locals@.len() as nat),
                parse_add(m, ls0, pos0) == parse_add_more(m, ls0, node_model(lhs), self.pos as int),
            decreases self.tokens@.len() - self.pos,
        {
            let ghost lm = node_model(lhs);
            let ghost glhs = lhs;
            if self.consume("+") {
                let rhs = self.mul()?;
                let ghost grhs = rhs;
                proof {
                    lemma_ty_model(glhs);
                    lemma_ty_model(grhs);
                    lemma_new_add_sub_model(glhs, grhs);
                }
                lhs = Node::new_add(Box::new(lhs), Box::new(rhs))?;
                proof {
                    let k = self.temp_locals@.len() as nat;
                    let scaled = Node::Bin {
                        op: NodeKind::NdMul,
                        lhs: Box::new(grhs),
                        rhs: Box::new(Node::Num { val: 8 }),
                    };
                    assert(expr_tree(Node::Num { val: 8 }));
                    assert(lvars_below(Node::Num { val: 8 }, k));
                    assert(expr_tree(scaled));
                    assert(lvars_below(scaled, k));
                    assert(expr_tree(lhs));
                    assert(lvars_below(lhs, k));
                }
            } else if self.consume("-") {
                let rhs = self.mul()?;
                let ghost grhs = rhs;
                proof {
                    lemma_ty_model(glhs);
                    lemma_ty_model(grhs);
                    lemma_new_add_sub_model(glhs, grhs);
                }
                lhs = Node::new_sub(Box::new(lhs), Box::new(rhs))?;
                proof {
                    let k = self.temp_locals@.len() as nat;
                    let scaled = Node::Bin {
                        op: NodeKind::NdMul,
                        lhs: Box::new(grhs),
                        rhs: Box::new(Node::Num { val: 8 }),
                    };
                    assert(expr_tree(Node::Num { val: 8 }));
                    assert(lvars_below(Node::Num { val: 8 }, k));
                    assert(expr_tree(scaled));
                    assert(lvars_below(scaled, k));
                    assert(expr_tree(lhs));
                    assert(lvars_below(lhs, k));
                }
            } else {
                break;
            }
        }
        Ok(lhs)
    }

    /// `relational = add ((">" | "<" | ">=" | "<=") add)*`
    #[verifier::loop_isolation(false)]
    fn relational(&mut self) -> (r: Result<Node, CompileError>)
        requires
            old(self).wf(),
        ensures
            final(self).wf(),
            final(self).tokens == old(self).tokens,
            final(self).functions == old(self).functions,
            final(self).temp_locals == old(self).temp_locals,
            final(self).pos >= old(self).pos,
            r matches Ok(n) ==> expr_tree(n) && lvars_below(
                n,
                final(self).temp_locals@.len() as nat,
            ) && final(self).pos > old(self).pos,
            ({
                let sp = parse_relational(
                    token_models(old(self).tokens@),
                    lvar_models(old(self).temp_locals@),
                    old(self).pos as int,
                );
                &&& (r is Ok <==> sp is Some)
                &&& (r matches Ok(n) ==> sp matches Some(pr) && node_model(n) == pr.0
                    && final(self).pos == pr.1)
            }),
        decreases old(self).tokens@.len() - old(self).pos, 5int, 0int,
    {
        let ghost m = token_models(self.tokens@);
        let ghost ls0 = lvar_models(self.temp_locals@);
        let ghost pos0 = self.pos as int;
        proof {
            lemma_token_models(self.tokens@);
            lemma_lvar_models(self.temp_locals@);
        }
        let mut lhs = self.add()?;
        loop
            invariant
                self.wf(),
                self.tokens == old(self).tokens,
                self.functions == old(self).functions,
                self.temp_locals == old(self).temp_locals,
                self.pos > old(self).pos,
                expr_tree(lhs),
                lvars_below(lhs, self.temp_locals@.len() as nat),
                parse_relational(m, ls0, pos0) == parse_rel_more(m, ls0, node_model(lhs), self.pos as int),
            decreases self.tokens@.len() - self.pos,
        {
            let ghost lm = node_model(lhs);
            if self.consume(">") {
                let rhs = self.add()?;
                let ghost rm = node_model(rhs);
                lhs = Node::new_binary(NodeKind::NdMt, Box::new(lhs), Box::new(rhs));
                proof {
                    assert(node_model(lhs) == NodeModel::Bin {
                        op: NodeKind::NdMt,
                        lhs: Box::new(lm),
                        rhs: Box::new(rm),
                    });
                }
            } else if self.consume("<") {
                let rhs = self.add()?;
                let ghost rm = node_model(rhs);
                lhs = Node::new_binary(NodeKind::NdLt, Box::new(lhs), Box::new(rhs));
                proof {
                    assert(node_model(lhs) == NodeModel::Bin {
                        op: NodeKind::NdLt,
                        lhs: Box::new(lm),
                        rhs: Box::new(rm),
                    });
                }
            } else if self.consume(">=") {
                let rhs = self.add()?;
                let ghost rm = node_model(rhs);
                lhs = Node::new_binary(NodeKind::NdOm, Box::new(lhs), Box::new(rhs));
                proof {
                    assert(node_model(lhs) == NodeModel::Bin {
                        op: NodeKind::NdOm,
                        lhs: Box::new(lm),
                        rhs: Box::new(rm),
                    });
                }
            } else if self.consume("<=") {
                let rhs = self.add()?;
                let ghost rm = node_model(rhs);
                lhs = Node::new_binary(NodeKind::NdOl, Box::new(lhs), Box::new(rhs));
                proof {
                    assert(node_model(lhs) == NodeModel::Bin {
                        op: NodeKind::NdOl,
                        lhs: Box::new(lm),
                        rhs: Box::new(rm),
                    });
                }
            } else {
                break;
            }
        }
        Ok(lhs)
    }

    /// `equality = relational (("==" | "!=") relational)*` — though the
    /// right-hand side recurses into `mul`, not `relational`, an
    /// associativity wart of this compiler kept for faithful output.
    #[verifier::loop_isolation(false)]
    fn equality(&mut self) -> (r: Result<Node, CompileError>)
        requires
            old(self).wf(),
        ensures
            final(self).wf(),
            final(self).tokens == old(self).tokens,
            final(self).functions == old(self).functions,
            final(self).temp_locals == old(self).temp_locals,
            final(self).pos >= old(self).pos,
            r matches Ok(n) ==> expr_tree(n) && lvars_below(
                n,
                final(self).temp_locals@.len() as nat,
            ) && final(self).pos > old(self).pos,
            ({
                let sp = parse_equality(
                    token_models(old(self).tokens@),
                    lvar_models(old(self).temp_locals@),
                    old(self).pos as int,
                );
                &&& (r is Ok <==> sp is Some)
                &&& (r matches Ok(n) ==> sp matches Some(pr) && node_model(n) == pr.0
                    && final(self).pos == pr.1)
            }),
        decreases old(self).tokens@.len() - old(self).pos, 6int, 0int,
    {
        let ghost m = token_models(self.tokens@);
        let ghost ls0 = lvar_models(self.temp_locals@);
        let ghost pos0 = self.pos as int;
        proof {
            lemma_token_models(self.tokens@);
            lemma_lvar_models(self.temp_locals@);
        }
        let mut lhs = self.relational()?;
        loop
            invariant
                self.wf(),
                self.tokens == old(self).tokens,
                self.functions == old(self).functions,
                self.temp_locals == old(self).temp_locals,
                self.pos > old(self).pos,
                expr_tree(lhs),
                lvars_below(lhs, self.temp_locals@.len() as nat),
                parse_equality(m, ls0, pos0) == parse_eq_more(m, ls0, node_model(lhs), self.pos as int),
            decreases self.tokens@.len() - self.pos,
        {
            let ghost lm = node_model(lhs);
            if self.consume("==") {
                let rhs = self.mul()?;
                let ghost rm = node_model(rhs);
                lhs = Node::new_binary(NodeKind::NdEq, Box::new(lhs), Box::new(rhs));
                proof {
                    assert(node_model(lhs) == NodeModel::Bin {
                        op: NodeKind::NdEq,
                        lhs: Box::new(lm),
                        rhs: Box::new(rm),
                    });
                }
            } else if self.consume("!=") {
                let rhs = self.mul()?;
                let ghost rm = node_model(rhs);
                lhs = Node::new_binary(NodeKind::NdNe, Box::new(lhs), Box::new(rhs));
                proof {
                    assert(node_model(lhs) == NodeModel::Bin {
                        op: NodeKind::NdNe,
                        lhs: Box::new(lm),
                        rhs: Box::new(rm),
                    });
                }
            } else {
                break;
            }
        }
        Ok(lhs)
    }

    /// `assign = equality ("=" assign)?`, right-associative.
    fn assign(&mut self) -> (r: Result<Node, CompileError>)
        requires
            old(self).wf(),
        ensures
            final(self).wf(),
            final(self).tokens == old(self).tokens,
            final(self).functions == old(self).functions,
            final(self).temp_locals == old(self).temp_locals,
            final(self).pos >= old(self).pos,
            r matches Ok(n) ==> expr_tree(n) && lvars_below(
                n,
                final(self).temp_locals@.len() as nat,
            ) && final(self).pos > old(self).pos,
            ({
                let sp = parse_assign(
                    token_models(old(self).tokens@),
                    lvar_models(old(self).temp_locals@),
                    old(self).pos as int,
                );
                &&& (r is Ok <==> sp is Some)
                &&& (r matches Ok(n) ==> sp matches Some(pr) && node_model(n) == pr.0
                    && final(self).pos == pr.1)
            }),
        decreases old(self).tokens@.len() - old(self).pos, 7int, 0int,
    {
        let lhs = self.equality()?;
        let ghost lm = node_model(lhs);
        if self.consume("=") {
            let rhs = self.assign()?;
            let ghost rm = node_model(rhs);
            let n = Node::new_binary(NodeKind::NdAs, Box::new(lhs), Box::new(rhs));
            proof {
                assert(node_model(n) == NodeModel::Bin {
                    op: NodeKind::NdAs,
                    lhs: Box::new(lm),
                    rhs: Box::new(rm),
                });
            }
            return Ok(n);
        }
        Ok(lhs)
    }

    /// `expr = assign`
    fn expr(&mut self) -> (r: Result<Node, CompileError>)
        requires
            old(self).wf(),
        ensures
            final(self).wf(),
            final(self).tokens == old(self).tokens,
            final(self).functions == old(self).functions,
            final(self).temp_locals == old(self).temp_locals,
            final(self).pos >= old(self).pos,
            r matches Ok(n) ==> expr_tree(n) && lvars_below(
                n,
                final(self).temp_locals@.len() as nat,
            ) && final(self).pos > old(self).pos,
            ({
                let sp = parse_expr(
                    token_models(old(self).tokens@),
                    lvar_models(old(self).temp_locals@),
                    old(self).pos as int,
                );
                &&& (r is Ok <==> sp is Some)
                &&& (r matches Ok(n) ==> sp matches Some(pr) && node_model(n) == pr.0
                    && final(self).pos == pr.1)
            }),
        decreases old(self).tokens@.len() - old(self).pos, 8int, 0int,
    {
        self.assign()
    }
}


/// The statement keywords are pairwise distinct lexemes.
proof fn lemma_stmt_keywords()
    ensures
        "{"@.len() == 1,
        "int"@.len() == 3,
        "return"@.len() == 6,
        "if"@.len() == 2,
        "while"@.len() == 5,
        "for"@.len() == 3,
        "int"@ != "for"@,
{
    reveal_strlit("{");
    reveal_strlit("int");
    reveal_strlit("return");
    reveal_strlit("if");
    reveal_strlit("while");
    reveal_strlit("for");
    assert("int"@[0] == 'i');
    assert("for"@[0] == 'f');
}

/// True when the parser's next token carries the given lexeme: what
/// decides which statement form is parsed.
pub open spec fn stmt_head(p: Parser, lexeme: Seq<char>) -> bool {
    p.pos < p.tokens@.len() && p.tokens@[p.pos as int].op@ == lexeme
}

impl Parser {
    /// One statement: a brace block, a declaration, `return`, `if`,
    /// `while`, `for`, or a bare expression ending in a semicolon. A
    /// declaration appends a fresh local and flows through the statement
    /// stream as a harmless reference to it.
    #[verifier::loop_isolation(false)]
    #[verifier::rlimit(100)]
    /// A brace block statement: inner statements each followed by the
    /// typing closure, collected until the closing brace.
    #[verifier::loop_isolation(false)]
    #[verifier::rlimit(100)]
    fn stmt_block(&mut self) -> (r: Result<Node, CompileError>)
        requires
            old(self).wf(),
            old(self).pos < old(self).tokens@.len(),
            old(self).tokens@[old(self).pos as int].op@ == "{"@,
        ensures
            final(self).wf(),
            final(self).tokens == old(self).tokens,
            final(self).functions == old(self).functions,
            final(self).temp_locals@.len() >= old(self).temp_locals@.len(),
            final(self).pos >= old(self).pos,
            r matches Ok(n) ==> stmt_tree(n) && lvars_below(
                n,
                final(self).temp_locals@.len() as nat,
            ) && final(self).pos > old(self).pos,
            r matches Ok(n) ==> n is Block,
            ({
                let sp = parse_stmt(
                    token_models(old(self).tokens@),
                    lvar_models(old(self).temp_locals@),
                    old(self).pos as int,
                );
                &&& (r is Ok <==> sp is Some)
                &&& (r matches Ok(n) ==> sp matches Some(tr) && node_model(n) == tr.0
                    && lvar_models(final(self).temp_locals@) == tr.1 && final(self).pos == tr.2)
            }),
        decreases old(self).tokens@.len() - old(self).pos, 9int, 0int,
    {
        let ghost m = token_models(self.tokens@);
        let ghost ls0 = lvar_models(self.temp_locals@);
        let ghost pos0 = self.pos as int;
        proof {
            lemma_token_models(self.tokens@);
            lemma_lvar_models(self.temp_locals@);
            lemma_stmt_keywords();
        }
        if self.consume("{") {
            let mut blocks: Vec<Node> = Vec::new();
            proof {
                assert(node_models(blocks@) =~= Seq::<NodeModel>::empty());
                let bi = parse_block_items(m, ls0, pos0 + 1);
                if bi is Some {
                    assert(node_models(blocks@) + (bi->0).0 =~= (bi->0).0);
                }
            }
            loop
                invariant
                    self.wf(),
                    self.tokens == old(self).tokens,
                    self.functions == old(self).functions,
                    self.temp_locals@.len() >= old(self).temp_locals@.len(),
                    self.pos > old(self).pos,
                    forall|j: int| 0 <= j < blocks@.len() ==> stmt_tree(#[trigger] blocks@[j]),
                    forall|j: int|
                        0 <= j < blocks@.len() ==> lvars_below(
                            #[trigger] blocks@[j],
                            self.temp_locals@.len() as nat,
                        ),
                    ({
                        let bi = parse_block_items(
                            m,
                            lvar_models(self.temp_locals@),
                            self.pos as int,
                        );
                        let sp = parse_stmt(m, ls0, pos0);
                        &&& (bi matches Some(t) ==> sp == Some(
                            (
                                NodeModel::Block { blocks: node_models(blocks@) + t.0 },
                                t.1,
                                t.2,
                            ),
                        ))
                        &&& (bi is None ==> sp is None)
                    }),
                decreases self.tokens@.len() - self.pos,
            {
                let ghost cur = self.pos as int;
                let ghost cur_ls = lvar_models(self.temp_locals@);
                let ghost done = node_models(blocks@);
                if self.consume("}") {
                    proof {
                        assert(done + Seq::<NodeModel>::empty() =~= done);
                        assert(node_model(Node::Block { blocks }) == NodeModel::Block {
                            blocks: done,
                        });
                    }
                    break;
                }
                if self.pos >= self.tokens.len() {
                    return Err(
                        CompileError::ParseError(
                            String::from_str("expected } but got end of input"),
                        ),
                    );
                }
                let ghost len_before = self.temp_locals@.len() as nat;
                let block = self.stmt()?;
                proof {
                    lemma_ty_model(block);
                }
                block.check_type()?;
                proof {
                    assert forall|j: int|
                        0 <= j < blocks@.len() implies lvars_below(
                        #[trigger] blocks@[j],
                        self.temp_locals@.len() as nat,
                    ) by {
                        lemma_lvars_below_mono(
                            blocks@[j],
                            len_before,
                            self.temp_locals@.len() as nat,
                        );
                    }
                    lemma_node_models_push(blocks@, block);
                    lemma_lvar_models(self.temp_locals@);
                    let bi2 = parse_block_items(
                        m,
                        lvar_models(self.temp_locals@),
                        self.pos as int,
                    );
                    if bi2 is Some {
                        assert(done + (seq![node_model(block)] + (bi2->0).0) =~= done.push(
                            node_model(block),
                        ) + (bi2->0).0);
                    }
                }
                blocks.push(block);
            }
            proof {
                lemma_all_stmt_trees_forall(blocks@);
                lemma_all_lvars_below_forall(blocks@, self.temp_locals@.len() as nat);
            }
            return Ok(Node::Block { blocks });
        }
        proof {
            assert(false);
        }
        Err(CompileError::ParseError(String::new()))
    }

    /// An `if` statement, with its optional `else`.
    #[verifier::loop_isolation(false)]
    #[verifier::rlimit(100)]
    fn stmt_if(&mut self) -> (r: Result<Node, CompileError>)
        requires
            old(self).wf(),
            old(self).pos < old(self).tokens@.len(),
            old(self).tokens@[old(self).pos as int].op@ == "if"@,
        ensures
            final(self).wf(),
            final(self).tokens == old(self).tokens,
            final(self).functions == old(self).functions,
            final(self).temp_locals@.len() >= old(self).temp_locals@.len(),
            final(self).pos >= old(self).pos,
            r matches Ok(n) ==> stmt_tree(n) && lvars_below(
                n,
                final(self).temp_locals@.len() as nat,
            ) && final(self).pos > old(self).pos,
            r matches Ok(n) ==> n is If,
            ({
                let sp = parse_stmt(
                    token_models(old(self).tokens@),
                    lvar_models(old(self).temp_locals@),
                    old(self).pos as int,
                );
                &&& (r is Ok <==> sp is Some)
                &&& (r matches Ok(n) ==> sp matches Some(tr) && node_model(n) == tr.0
                    && lvar_models(final(self).temp_locals@) == tr.1 && final(self).pos == tr.2)
            }),
        decreases old(self).tokens@.len() - old(self).pos, 9int, 0int,
    {
        let ghost m = token_models(self.tokens@);
        let ghost ls0 = lvar_models(self.temp_locals@);
        let ghost pos0 = self.pos as int;
        proof {
            lemma_token_models(self.tokens@);
            lemma_lvar_models(self.temp_locals@);
            lemma_stmt_keywords();
        }
        if self.consume("if") {
            self.expect("(")?;
            let cond = self.expr()?;
            proof {
                lemma_ty_model(cond);
            }
            cond.check_type()?;
            self.expect(")")?;
            let ghost len_cond = self.temp_locals@.len() as nat;
            let ghost gcond = cond;
            let ghost cm = node_model(cond);
            let body = self.stmt()?;
            proof {
                lemma_ty_model(body);
            }
            body.check_type()?;
            let ghost len_body = self.temp_locals@.len() as nat;
            let ghost gbody = body;
            let ghost bm = node_model(body);
            if self.consume("else") {
                let els = self.stmt()?;
                proof {
                    lemma_ty_model(els);
                }
                els.check_type()?;
                let ghost em = node_model(els);
                proof {
                    lemma_lvars_below_mono(gcond, len_cond, self.temp_locals@.len() as nat);
                    lemma_lvars_below_mono(gbody, len_body, self.temp_locals@.len() as nat);
                }
                let n = Node::If {
                    cond: Box::new(cond),
                    body: Box::new(body),
                    els: Some(Box::new(els)),
                };
                proof {
                    assert(node_model(n) == NodeModel::If {
                        cond: Box::new(cm),
                        body: Box::new(bm),
                        els: Some(Box::new(em)),
                    });
                }
                return Ok(n);
            }
            proof {
                lemma_lvars_below_mono(gcond, len_cond, self.temp_locals@.len() as nat);
            }
            let n = Node::If { cond: Box::new(cond), body: Box::new(body), els: None };
            proof {
                assert(node_model(n) == NodeModel::If {
                    cond: Box::new(cm),
                    body: Box::new(bm),
                    els: None,
                });
            }
            return Ok(n);
        }
        proof {
            assert(false);
        }
        Err(CompileError::ParseError(String::new()))
    }

    /// A `while` statement.
    #[verifier::loop_isolation(false)]
    #[verifier::rlimit(100)]
    fn stmt_while(&mut self) -> (r: Result<Node, CompileError>)
        requires
            old(self).wf(),
            old(self).pos < old(self).tokens@.len(),
            old(self).tokens@[old(self).pos as int].op@ == "while"@,
        ensures
            final(self).wf(),
            final(self).tokens == old(self).tokens,
            final(self).functions == old(self).functions,
            final(self).temp_locals@.len() >= old(self).temp_locals@.len(),
            final(self).pos >= old(self).pos,
            r matches Ok(n) ==> stmt_tree(n) && lvars_below(
                n,
                final(self).temp_locals@.len() as nat,
            ) && final(self).pos > old(self).pos,
            r matches Ok(n) ==> n is While,
            ({
                let sp = parse_stmt(
                    token_models(old(self).tokens@),
                    lvar_models(old(self).temp_locals@),
                    old(self).pos as int,
                );
                &&& (r is Ok <==> sp is Some)
                &&& (r matches Ok(n) ==> sp matches Some(tr) && node_model(n) == tr.0
                    && lvar_models(final(self).temp_locals@) == tr.1 && final(self).pos == tr.2)
            }),
        decreases old(self).tokens@.len() - old(self).pos, 9int, 0int,
    {
        let ghost m = token_models(self.tokens@);
        let ghost ls0 = lvar_models(self.temp_locals@);
        let ghost pos0 = self.pos as int;
        proof {
            lemma_token_models(self.tokens@);
            lemma_lvar_models(self.temp_locals@);
            lemma_stmt_keywords();
        }
        if self.consume("while") {
            self.expect("(")?;
            let cond = self.expr()?;
            proof {
                lemma_ty_model(cond);
            }
            cond.check_type()?;
            self.expect(")")?;
            let ghost len_cond = self.temp_locals@.len() as nat;
            let ghost gcond = cond;
            let ghost cm = node_model(cond);
            let body = self.stmt()?;
            proof {
                lemma_ty_model(body);
            }
            body.check_type()?;
            let ghost bm = node_model(body);
            proof {
                lemma_lvars_below_mono(gcond, len_cond, self.temp_locals@.len() as nat);
            }
            let n = Node::While { cond: Box::new(cond), body: Box::new(body) };
            proof {
                assert(node_model(n) == NodeModel::While {
                    cond: Box::new(cm),
                    body: Box::new(bm),
                });
            }
            return Ok(n);
        }
        proof {
            assert(false);
        }
        Err(CompileError::ParseError(String::new()))
    }

    /// One optional slot of a `for` header, parsed unless the stopping
    /// lexeme (or the end of the tokens) is already there.
    fn for_header_part(&mut self, stop: &str) -> (r: Result<Option<Box<Node>>, CompileError>)
        requires
            old(self).wf(),
        ensures
            final(self).wf(),
            final(self).tokens == old(self).tokens,
            final(self).functions == old(self).functions,
            final(self).temp_locals == old(self).temp_locals,
            final(self).pos >= old(self).pos,
            r matches Ok(o) ==> (o matches Some(b) ==> expr_tree(*b) && lvars_below(
                *b,
                final(self).temp_locals@.len() as nat,
            ) && final(self).pos > old(self).pos),
            ({
                let sp = parse_for_part(
                    token_models(old(self).tokens@),
                    lvar_models(old(self).temp_locals@),
                    old(self).pos as int,
                    stop@,
                );
                &&& (r is Ok <==> sp is Some)
                &&& (r matches Ok(o) ==> sp matches Some(pr) && (match o {
                    Some(b) => pr.0 == Some(Box::new(node_model(*b))),
                    None => pr.0 is None,
                }) && final(self).pos == pr.1)
            }),
    {
        proof {
            lemma_token_models(self.tokens@);
            lemma_lvar_models(self.temp_locals@);
        }
        if self.pos < self.tokens.len() && !str_eq(self.tokens[self.pos].op.as_str(), stop) {
            let e = self.expr()?;
            proof {
                lemma_ty_model(e);
            }
            e.check_type()?;
            Ok(Some(Box::new(e)))
        } else {
            Ok(None)
        }
    }

    /// A `for` statement, each header slot optional.
    #[verifier::loop_isolation(false)]
    #[verifier::rlimit(100)]
    fn stmt_for(&mut self) -> (r: Result<Node, CompileError>)
        requires
            old(self).wf(),
            old(self).pos < old(self).tokens@.len(),
            old(self).tokens@[old(self).pos as int].op@ == "for"@,
        ensures
            final(self).wf(),
            final(self).tokens == old(self).tokens,
            final(self).functions == old(self).functions,
            final(self).temp_locals@.len() >= old(self).temp_locals@.len(),
            final(self).pos >= old(self).pos,
            r matches Ok(n) ==> stmt_tree(n) && lvars_below(
                n,
                final(self).temp_locals@.len() as nat,
            ) && final(self).pos > old(self).pos,
            r matches Ok(n) ==> n is For,
            ({
                let sp = parse_stmt(
                    token_models(old(self).tokens@),
                    lvar_models(old(self).temp_locals@),
                    old(self).pos as int,
                );
                &&& (r is Ok <==> sp is Some)
                &&& (r matches Ok(n) ==> sp matches Some(tr) && node_model(n) == tr.0
                    && lvar_models(final(self).temp_locals@) == tr.1 && final(self).pos == tr.2)
            }),
        decreases old(self).tokens@.len() - old(self).pos, 9int, 0int,
    {
        let ghost m = token_models(self.tokens@);
        let ghost ls0 = lvar_models(self.temp_locals@);
        let ghost pos0 = self.pos as int;
        proof {
            lemma_token_models(self.tokens@);
            lemma_lvar_models(self.temp_locals@);
            lemma_stmt_keywords();
        }
        if self.consume("for") {
            self.expect("(")?;
            let preop = self.for_header_part(";")?;
            let ghost pm: Option<Box<NodeModel>> = match &preop {
                Some(e) => Some(Box::new(node_model(**e))),
                None => None,
            };
            self.expect(";")?;
            let cond = self.for_header_part(";")?;
            let ghost cm: Option<Box<NodeModel>> = match &cond {
                Some(e) => Some(Box::new(node_model(**e))),
                None => None,
            };
            self.expect(";")?;
            let postop = self.for_header_part(")")?;
            let ghost qm: Option<Box<NodeModel>> = match &postop {
                Some(e) => Some(Box::new(node_model(**e))),
                None => None,
            };
            self.expect(")")?;
            let ghost len_hdr = self.temp_locals@.len() as nat;
            let ghost gpre = preop;
            let ghost gcond = cond;
            let ghost gpost = postop;
            let body = self.stmt()?;
            proof {
                lemma_ty_model(body);
            }
            body.check_type()?;
            let ghost bm = node_model(body);
            proof {
                let k = self.temp_locals@.len() as nat;
                match gpre {
                    Some(e) => lemma_lvars_below_mono(*e, len_hdr, k),
                    None => {},
                }
                match gcond {
                    Some(e) => lemma_lvars_below_mono(*e, len_hdr, k),
                    None => {},
                }
                match gpost {
                    Some(e) => lemma_lvars_below_mono(*e, len_hdr, k),
                    None => {},
                }
            }
            let n = Node::For { preop, cond, postop, body: Box::new(body) };
            proof {
                assert(node_model(n) == NodeModel::For {
                    preop: pm,
                    cond: cm,
                    postop: qm,
                    body: Box::new(bm),
                });
            }
            return Ok(n);
        }
        proof {
            assert(false);
        }
        Err(CompileError::ParseError(String::new()))
    }


    /// A declaration statement `int "*"* ident ";"`: appends one local
    /// with the declared type, the declared name, and the next frame
    /// index, and yields a reference to it.
    #[verifier::rlimit(100)]
    fn stmt_decl(&mut self) -> (r: Result<Node, CompileError>)
        requires
            old(self).wf(),
            old(self).pos < old(self).tokens@.len(),
            old(self).tokens@[old(self).pos as int].op@ == "int"@,
        ensures
            final(self).wf(),
            final(self).tokens == old(self).tokens,
            final(self).functions == old(self).functions,
            final(self).temp_locals@.len() >= old(self).temp_locals@.len(),
            final(self).pos >= old(self).pos,
            r matches Ok(n) ==> stmt_tree(n) && lvars_below(
                n,
                final(self).temp_locals@.len() as nat,
            ) && final(self).pos > old(self).pos,
            r matches Ok(n) ==> n is Lv,
            ({
                let sp = parse_stmt(
                    token_models(old(self).tokens@),
                    lvar_models(old(self).temp_locals@),
                    old(self).pos as int,
                );
                &&& (r is Ok <==> sp is Some)
                &&& (r matches Ok(n) ==> sp matches Some(tr) && node_model(n) == tr.0
                    && lvar_models(final(self).temp_locals@) == tr.1 && final(self).pos == tr.2)
            }),
        decreases old(self).tokens@.len() - old(self).pos, 9int, 0int,
    {
        let ghost m = token_models(self.tokens@);
        let ghost ls0 = lvar_models(self.temp_locals@);
        let ghost pos0 = self.pos as int;
        proof {
            lemma_token_models(self.tokens@);
            lemma_lvar_models(self.temp_locals@);
            lemma_stmt_keywords();
        }
        let ty = self.consume_type();
        if !(ty.kind == TypeKind::TyNone) {
            let name = self.expect_ident()?;
            let id = self.temp_locals.len();
            let lvar = LVar::new_lvar(ty, name, id);
            self.expect(";")?;
            let ghost before_push = self.temp_locals@;
            self.temp_locals.push(lvar.clone());
            proof {
                lemma_lvar_models(before_push);
                lemma_lvar_models(self.temp_locals@);
                assert(lvar_models(self.temp_locals@) =~= ls0.push(lvar_model(lvar)));
                assert(node_model(Node::Lv { lvar }) == NodeModel::Lv {
                    lvar: lvar_model(lvar),
                });
            }
            return Ok(Node::new_node_lv(lvar));
        }
        proof {
            assert(false);
        }
        Err(CompileError::ParseError(String::new()))
    }

    /// A `return` statement: the parsed expression as the child, the
    /// semicolon demanded.
    #[verifier::rlimit(100)]
    fn stmt_return(&mut self) -> (r: Result<Node, CompileError>)
        requires
            old(self).wf(),
            old(self).pos < old(self).tokens@.len(),
            old(self).tokens@[old(self).pos as int].op@ == "return"@,
        ensures
            final(self).wf(),
            final(self).tokens == old(self).tokens,
            final(self).functions == old(self).functions,
            final(self).temp_locals@.len() >= old(self).temp_locals@.len(),
            final(self).pos >= old(self).pos,
            r matches Ok(n) ==> stmt_tree(n) && lvars_below(
                n,
                final(self).temp_locals@.len() as nat,
            ) && final(self).pos > old(self).pos,
            r matches Ok(n) ==> n is Rt,
            ({
                let sp = parse_stmt(
                    token_models(old(self).tokens@),
                    lvar_models(old(self).temp_locals@),
                    old(self).pos as int,
                );
                &&& (r is Ok <==> sp is Some)
                &&& (r matches Ok(n) ==> sp matches Some(tr) && node_model(n) == tr.0
                    && lvar_models(final(self).temp_locals@) == tr.1 && final(self).pos == tr.2)
            }),
        decreases old(self).tokens@.len() - old(self).pos, 9int, 0int,
    {
        let ghost m = token_models(self.tokens@);
        let ghost ls0 = lvar_models(self.temp_locals@);
        let ghost pos0 = self.pos as int;
        proof {
            lemma_token_models(self.tokens@);
            lemma_lvar_models(self.temp_locals@);
            lemma_stmt_keywords();
        }
        if self.consume("return") {
            let e = self.expr()?;
            self.expect(";")?;
            let ghost em = node_model(e);
            let n = Node::new_unary(NodeKind::NdRt, Box::new(e));
            proof {
                assert(node_model(n) == NodeModel::Rt { lhs: Box::new(em) });
            }
            return Ok(n);
        }
        proof {
            assert(false);
        }
        Err(CompileError::ParseError(String::new()))
    }

    /// A bare expression statement, the semicolon demanded.
    #[verifier::rlimit(100)]
    fn stmt_expr(&mut self) -> (r: Result<Node, CompileError>)
        requires
            old(self).wf(),
            old(self).pos < old(self).tokens@.len() ==> {
                &&& old(self).tokens@[old(self).pos as int].op@ != "{"@
                &&& old(self).tokens@[old(self).pos as int].op@ != "int"@
                &&& old(self).tokens@[old(self).pos as int].op@ != "return"@
                &&& old(self).tokens@[old(self).pos as int].op@ != "if"@
                &&& old(self).tokens@[old(self).pos as int].op@ != "while"@
                &&& old(self).tokens@[old(self).pos as int].op@ != "for"@
            },
        ensures
            final(self).wf(),
            final(self).tokens == old(self).tokens,
            final(self).functions == old(self).functions,
            final(self).temp_locals@.len() >= old(self).temp_locals@.len(),
            final(self).pos >= old(self).pos,
            r matches Ok(n) ==> stmt_tree(n) && lvars_below(
                n,
                final(self).temp_locals@.len() as nat,
            ) && final(self).pos > old(self).pos,
            ({
                let sp = parse_stmt(
                    token_models(old(self).tokens@),
                    lvar_models(old(self).temp_locals@),
                    old(self).pos as int,
                );
                &&& (r is Ok <==> sp is Some)
                &&& (r matches Ok(n) ==> sp matches Some(tr) && node_model(n) == tr.0
                    && lvar_models(final(self).temp_locals@) == tr.1 && final(self).pos == tr.2)
            }),
        decreases old(self).tokens@.len() - old(self).pos, 9int, 0int,
    {
        let ghost m = token_models(self.tokens@);
        let ghost ls0 = lvar_models(self.temp_locals@);
        let ghost pos0 = self.pos as int;
        proof {
            lemma_token_models(self.tokens@);
            lemma_lvar_models(self.temp_locals@);
            lemma_stmt_keywords();
        }
        let node = self.expr()?;
        self.expect(";")?;
        Ok(node)
    }

    fn stmt(&mut self) -> (r: Result<Node, CompileError>)
        requires
            old(self).wf(),
        ensures
            final(self).wf(),
            final(self).tokens == old(self).tokens,
            final(self).functions == old(self).functions,
            final(self).temp_locals@.len() >= old(self).temp_locals@.len(),
            final(self).pos >= old(self).pos,
            r matches Ok(n) ==> stmt_tree(n) && lvars_below(
                n,
                final(self).temp_locals@.len() as nat,
            ) && final(self).pos > old(self).pos,
            r matches Ok(n) ==> (stmt_head(*old(self), "{"@) ==> n is Block),
            r matches Ok(n) ==> (stmt_head(*old(self), "int"@) ==> n is Lv),
            r matches Ok(n) ==> (stmt_head(*old(self), "return"@) ==> n is Rt),
            r matches Ok(n) ==> (stmt_head(*old(self), "if"@) ==> n is If),
            r matches Ok(n) ==> (stmt_head(*old(self), "while"@) ==> n is While),
            r matches Ok(n) ==> (stmt_head(*old(self), "for"@) ==> n is For),
            ({
                let sp = parse_stmt(
                    token_models(old(self).tokens@),
                    lvar_models(old(self).temp_locals@),
                    old(self).pos as int,
                );
                &&& (r is Ok <==> sp is Some)
                &&& (r matches Ok(n) ==> sp matches Some(tr) && node_model(n) == tr.0
                    && lvar_models(final(self).temp_locals@) == tr.1 && final(self).pos == tr.2)
            }),
        decreases old(self).tokens@.len() - old(self).pos, 9int, 1int,
    {
        let ghost m = token_models(self.tokens@);
        let ghost ls0 = lvar_models(self.temp_locals@);
        let ghost pos0 = self.pos as int;
        proof {
            lemma_token_models(self.tokens@);
            lemma_lvar_models(self.temp_locals@);
            lemma_stmt_keywords();
        }
        if self.pos < self.tokens.len() && str_eq(self.tokens[self.pos].op.as_str(), "{") {
            return self.stmt_block();
        }
        if self.pos < self.tokens.len() && str_eq(self.tokens[self.pos].op.as_str(), "int") {
            return self.stmt_decl();
        }
        if self.pos < self.tokens.len() && str_eq(
            self.tokens[self.pos].op.as_str(),
            "return",
        ) {
            return self.stmt_return();
        }
        if self.pos < self.tokens.len() && str_eq(self.tokens[self.pos].op.as_str(), "if") {
            return self.stmt_if();
        }
        if self.pos < self.tokens.len() && str_eq(
            self.tokens[self.pos].op.as_str(),
            "while",
        ) {
            return self.stmt_while();
        }
        if self.pos < self.tokens.len() && str_eq(self.tokens[self.pos].op.as_str(), "for") {
            return self.stmt_for();
        }
        self.stmt_expr()
    }
    /// One function definition: return type, name, the parenthesized
    /// parameter list (each parameter becomes a local in declaration
    /// order, `paramnum` counting them), and the brace-delimited body.
    /// The scratch locals are drained into the finished function and
    /// cleared.
    #[verifier::loop_isolation(false)]
    #[verifier::rlimit(100)]
    fn function(&mut self) -> (r: Result<Function, CompileError>)
        requires
            old(self).wf(),
            old(self).temp_locals@.len() == 0,
        ensures
            final(self).wf(),
            final(self).tokens == old(self).tokens,
            final(self).functions == old(self).functions,
            final(self).pos >= old(self).pos,
            r matches Ok(f) ==> f.wf() && final(self).pos > old(self).pos
                && final(self).temp_locals@.len() == 0,
            ({
                let sp = parse_function(token_models(old(self).tokens@), old(self).pos as int);
                &&& (r is Ok <==> sp is Some)
                &&& (r matches Ok(f) ==> sp matches Some(pr) && function_model(f) == pr.0
                    && final(self).pos == pr.1)
            }),
        decreases old(self).tokens@.len() - old(self).pos, 10int, 0int,
    {
        let ghost m = token_models(self.tokens@);
        let ghost pos0 = self.pos as int;
        proof {
            lemma_token_models(self.tokens@);
            lemma_lvar_models(self.temp_locals@);
        }
        let ty = self.consume_type();
        let name = self.expect_ident()?;
        let mut paramnum: usize = 0;
        self.expect("(")?;
        if self.consume(")") {
            proof {
                assert(lvar_models(self.temp_locals@) =~= Seq::<LVarModel>::empty());
            }
        } else {
            let pty = self.consume_type();
            let pname = self.expect_ident()?;
            let lvar = LVar::new_lvar(pty, pname, self.temp_locals.len());
            let ghost before_push = self.temp_locals@;
            self.temp_locals.push(lvar);
            proof {
                lemma_lvar_models(before_push);
                lemma_lvar_models(self.temp_locals@);
                assert(lvar_models(self.temp_locals@) =~= seq![lvar_model(lvar)]);
            }
            let ghost q0 = self.pos as int;
            let ghost acc0 = lvar_models(self.temp_locals@);
            while self.consume(",")
                invariant
                    self.wf(),
                    self.tokens == old(self).tokens,
                    self.functions == old(self).functions,
                    self.pos > old(self).pos,
                    parse_params_more(m, q0, acc0) == parse_params_more(
                        m,
                        self.pos as int,
                        lvar_models(self.temp_locals@),
                    ),
                decreases self.tokens@.len() - self.pos,
            {
                let pty2 = self.consume_type();
                let pname2 = self.expect_ident()?;
                let lvar2 = LVar::new_lvar(pty2, pname2, self.temp_locals.len());
                let ghost before2 = self.temp_locals@;
                self.temp_locals.push(lvar2);
                proof {
                    lemma_lvar_models(before2);
                    lemma_lvar_models(self.temp_locals@);
                    assert(lvar_models(self.temp_locals@) =~= lvar_models(before2).push(
                        lvar_model(lvar2),
                    ));
                }
            }
            paramnum = self.temp_locals.len();
            self.expect(")")?;
        }
        self.expect("{")?;
        let ghost params_models = lvar_models(self.temp_locals@);
        let ghost body_start = self.pos as int;
        let ghost pn = paramnum;
        let mut body: Vec<Node> = Vec::new();
        proof {
            assert(node_models(body@) =~= Seq::<NodeModel>::empty());
            let fb = parse_fn_body(m, params_models, body_start);
            if fb is Some {
                assert(node_models(body@) + (fb->0).0 =~= (fb->0).0);
            }
        }
        loop
            invariant
                self.wf(),
                self.tokens == old(self).tokens,
                self.functions == old(self).functions,
                self.pos > old(self).pos,
                paramnum == pn,
                paramnum <= self.temp_locals@.len(),
                forall|j: int|
                    0 <= j < body@.len() ==> stmt_tree(#[trigger] body@[j]) && typed_ok(
                        body@[j],
                    ),
                forall|j: int|
                    0 <= j < body@.len() ==> lvars_below(
                        #[trigger] body@[j],
                        self.temp_locals@.len() as nat,
                    ),
                ({
                    let fb = parse_fn_body(
                        m,
                        lvar_models(self.temp_locals@),
                        self.pos as int,
                    );
                    let whole = parse_fn_body(m, params_models, body_start);
                    &&& (fb matches Some(t) ==> whole == Some(
                        (node_models(body@) + t.0, t.1, t.2),
                    ))
                    &&& (fb is None ==> whole is None)
                }),
            decreases self.tokens@.len() - self.pos,
        {
            let ghost done = node_models(body@);
            if self.pos >= self.tokens.len() {
                return Err(
                    CompileError::ParseError(
                        String::from_str("expected } but got end of input"),
                    ),
                );
            }
            if str_eq(self.tokens[self.pos].op.as_str(), "}") {
                proof {
                    assert(done + Seq::<NodeModel>::empty() =~= done);
                }
                break;
            }
            let ghost len_before = self.temp_locals@.len() as nat;
            let node = self.stmt()?;
            proof {
                lemma_ty_model(node);
            }
            node.check_type()?;
            proof {
                assert forall|j: int|
                    0 <= j < body@.len() implies lvars_below(
                    #[trigger] body@[j],
                    self.temp_locals@.len() as nat,
                ) by {
                    lemma_lvars_below_mono(body@[j], len_before, self.temp_locals@.len() as nat);
                }
                lemma_node_models_push(body@, node);
                let fb2 = parse_fn_body(
                    m,
                    lvar_models(self.temp_locals@),
                    self.pos as int,
                );
                if fb2 is Some {
                    assert(done + (seq![node_model(node)] + (fb2->0).0) =~= done.push(
                        node_model(node),
                    ) + (fb2->0).0);
                }
            }
            body.push(node);
        }
        self.pos = self.pos + 1;
        let mut locals: Vec<LVar> = Vec::new();
        core::mem::swap(&mut locals, &mut self.temp_locals);
        let f = Function { ty: ty.kind, name, paramnum, locals, body };
        Ok(f)
    }

    /// `program = function*`: one function per definition, in source
    /// order, parsed until the terminating `Eof` token; the finished
    /// list replaces `functions`.
    #[verifier::loop_isolation(false)]
    #[verifier::rlimit(100)]
    pub fn program(&mut self) -> (r: Result<(), CompileError>)
        requires
            old(self).wf(),
            old(self).temp_locals@.len() == 0,
        ensures
            final(self).wf(),
            final(self).tokens == old(self).tokens,
            r is Ok ==> forall|i: int|
                0 <= i < final(self).functions@.len()
                    ==> (#[trigger] final(self).functions@[i]).wf(),
            r is Ok ==> final(self).pos == final(self).tokens@.len()
                || final(self).tokens@[final(self).pos as int].kind == TokenKind::TkEof,
            ({
                let sp = parse_program(token_models(old(self).tokens@), old(self).pos as int);
                &&& (r is Ok <==> sp is Some)
                &&& (r matches Ok(u) ==> sp matches Some(pr) && function_models(
                    final(self).functions@,
                ) == pr.0 && final(self).pos == pr.1)
            }),
    {
        let ghost m = token_models(self.tokens@);
        let ghost pos0 = self.pos as int;
        proof {
            lemma_token_models(self.tokens@);
        }
        let mut funcs: Vec<Function> = Vec::new();
        proof {
            lemma_function_models(funcs@);
            assert(function_models(funcs@) =~= Seq::<FunctionModel>::empty());
            let t = parse_program(m, pos0);
            if t is Some {
                assert(function_models(funcs@) + (t->0).0 =~= (t->0).0);
            }
        }
        while self.pos < self.tokens.len() && !(self.tokens[self.pos].kind == TokenKind::TkEof)
            invariant
                self.wf(),
                self.temp_locals@.len() == 0,
                self.tokens == old(self).tokens,
                forall|i: int| 0 <= i < funcs@.len() ==> (#[trigger] funcs@[i]).wf(),
                ({
                    let spc = parse_program(m, self.pos as int);
                    let sp0 = parse_program(m, pos0);
                    &&& (spc matches Some(t) ==> sp0 == Some(
                        (function_models(funcs@) + t.0, t.1),
                    ))
                    &&& (spc is None ==> sp0 is None)
                }),
            decreases self.tokens@.len() - self.pos,
        {
            let ghost done = function_models(funcs@);
            let f = self.function()?;
            proof {
                lemma_function_models(funcs@);
                lemma_function_models(funcs@.push(f));
                assert(function_models(funcs@.push(f)) =~= function_models(funcs@).push(
                    function_model(f),
                ));
                let t2 = parse_program(m, self.pos as int);
                if t2 is Some {
                    assert(done + (seq![function_model(f)] + (t2->0).0) =~= done.push(
                        function_model(f),
                    ) + (t2->0).0);
                }
            }
            funcs.push(f);
        }
        proof {
            let spc = parse_program(m, self.pos as int);
            if spc is Some {
                assert(function_models(funcs@) + Seq::<FunctionModel>::empty()
                    =~= function_models(funcs@));
            }
        }
        self.functions = funcs;
        Ok(())
    }
}


// ---------------------------------------------------------------------
// The mathematical model of the tree
// ---------------------------------------------------------------------

/// The mathematical content of a resolved local: its type, its name's
/// characters, and its frame index.
pub struct LVarModel {
    pub ty: Type,
    pub name: Seq<char>,
    pub id: usize,
}

/// The mathematical content of an AST node: the same shape as `Node`,
/// with names as character sequences and children as sequences. The
/// specification parser below builds these.
#[allow(inconsistent_fields)]
pub enum NodeModel {
    Num { val: u32 },
    Lv { lvar: LVarModel },
    Addr { lhs: Box<NodeModel> },
    Deref { lhs: Box<NodeModel> },
    Bin { op: NodeKind, lhs: Box<NodeModel>, rhs: Box<NodeModel> },
    If { cond: Box<NodeModel>, body: Box<NodeModel>, els: Option<Box<NodeModel>> },
    While { cond: Box<NodeModel>, body: Box<NodeModel> },
    For {
        preop: Option<Box<NodeModel>>,
        cond: Option<Box<NodeModel>>,
        postop: Option<Box<NodeModel>>,
        body: Box<NodeModel>,
    },
    Block { blocks: Seq<NodeModel> },
    Func { funcname: Seq<char>, args: Seq<NodeModel> },
    Rt { lhs: Box<NodeModel> },
}

/// The mathematical content of a parsed function.
pub struct FunctionModel {
    pub ty: TypeKind,
    pub name: Seq<char>,
    pub paramnum: usize,
    pub locals: Seq<LVarModel>,
    pub body: Seq<NodeModel>,
}

/// The model of one local.
pub open spec fn lvar_model(v: LVar) -> LVarModel {
    LVarModel { ty: v.ty, name: v.name@, id: v.id }
}

/// The models of a locals vector, in order.
pub open spec fn lvar_models(s: Seq<LVar>) -> Seq<LVarModel> {
    Seq::new(s.len(), |i: int| lvar_model(s[i]))
}

/// The model of one node.
pub open spec fn node_model(n: Node) -> NodeModel
    decreases n,
{
    match n {
        Node::Num { val } => NodeModel::Num { val },
        Node::Lv { lvar } => NodeModel::Lv { lvar: lvar_model(lvar) },
        Node::Addr { lhs } => NodeModel::Addr { lhs: Box::new(node_model(*lhs)) },
        Node::Deref { lhs } => NodeModel::Deref { lhs: Box::new(node_model(*lhs)) },
        Node::Bin { op, lhs, rhs } => NodeModel::Bin {
            op,
            lhs: Box::new(node_model(*lhs)),
            rhs: Box::new(node_model(*rhs)),
        },
        Node::If { cond, body, els } => NodeModel::If {
            cond: Box::new(node_model(*cond)),
            body: Box::new(node_model(*body)),
            els: match els {
                Some(e) => Some(Box::new(node_model(*e))),
                None => None,
            },
        },
        Node::While { cond, body } => NodeModel::While {
            cond: Box::new(node_model(*cond)),
            body: Box::new(node_model(*body)),
        },
        Node::For { preop, cond, postop, body } => NodeModel::For {
            preop: match preop {
                Some(e) => Some(Box::new(node_model(*e))),
                None => None,
            },
            cond: match cond {
                Some(e) => Some(Box::new(node_model(*e))),
                None => None,
            },
            postop: match postop {
                Some(e) => Some(Box::new(node_model(*e))),
                None => None,
            },
            body: Box::new(node_model(*body)),
        },
        Node::Block { blocks } => NodeModel::Block { blocks: node_models(blocks@) },
        Node::Func { funcname, args } => NodeModel::Func {
            funcname: funcname@,
            args: node_models(args@),
        },
        Node::Rt { lhs } => NodeModel::Rt { lhs: Box::new(node_model(*lhs)) },
    }
}

/// The models of a node sequence, in order.
pub open spec fn node_models(s: Seq<Node>) -> Seq<NodeModel>
    decreases s,
{
    if s.len() == 0 {
        Seq::<NodeModel>::empty()
    } else {
        seq![node_model(s[0])] + node_models(s.subrange(1, s.len() as int))
    }
}

/// The model of one function.
pub open spec fn function_model(f: Function) -> FunctionModel {
    FunctionModel {
        ty: f.ty,
        name: f.name@,
        paramnum: f.paramnum,
        locals: lvar_models(f.locals@),
        body: node_models(f.body@),
    }
}

/// The models of a function list, in order.
pub open spec fn function_models(s: Seq<Function>) -> Seq<FunctionModel> {
    Seq::new(s.len(), |i: int| function_model(s[i]))
}

/// `node_models` is the pointwise model.
pub proof fn lemma_node_models(s: Seq<Node>)
    ensures
        node_models(s).len() == s.len(),
        forall|i: int| 0 <= i < s.len() ==> node_models(s)[i] == node_model(#[trigger] s[i]),
    decreases s,
{
    if s.len() > 0 {
        lemma_node_models(s.subrange(1, s.len() as int));
        assert forall|i: int|
            0 <= i < s.len() implies node_models(s)[i] == node_model(#[trigger] s[i]) by {
            if i > 0 {
                assert(s.subrange(1, s.len() as int)[i - 1] == s[i]);
            }
        }
    }
}

/// `node_models` distributes over push.
pub proof fn lemma_node_models_push(s: Seq<Node>, n: Node)
    ensures
        node_models(s.push(n)) == node_models(s).push(node_model(n)),
    decreases s,
{
    lemma_node_models(s.push(n));
    lemma_node_models(s);
    assert forall|i: int|
        0 <= i < s.len() + 1 implies node_models(s.push(n))[i] == node_models(s).push(
        node_model(n),
    )[i] by {
        if i < s.len() {
            assert(s.push(n)[i] == s[i]);
        } else {
            assert(s.push(n)[i] == n);
        }
    }
    assert(node_models(s.push(n)) =~= node_models(s).push(node_model(n)));
}

// ---------------------------------------------------------------------
// The typing closure over models
// ---------------------------------------------------------------------

/// `ty_of` over the model: the same typing closure.
pub open spec fn ty_of_model(m: NodeModel) -> Type
    decreases m,
{
    match m {
        NodeModel::Num { .. } => Type::spec_int(),
        NodeModel::Func { .. } => Type::spec_int(),
        NodeModel::Lv { lvar } => lvar.ty,
        NodeModel::Addr { lhs } => Type {
            kind: TypeKind::TyPtr,
            ptr_to: Some(Box::new(ty_of_model(*lhs))),
            size: 8,
            size_array: 0,
        },
        NodeModel::Deref { lhs } => match ty_of_model(*lhs).ptr_to {
            Some(b) => *b,
            None => Type::spec_none(),
        },
        NodeModel::Bin { lhs, .. } => ty_of_model(*lhs),
        _ => Type::spec_none(),
    }
}

/// `typed_ok` over the model.
pub open spec fn typed_ok_model(m: NodeModel) -> bool
    decreases m,
{
    match m {
        NodeModel::Num { .. } => true,
        NodeModel::Lv { .. } => true,
        NodeModel::Addr { lhs } => typed_ok_model(*lhs),
        NodeModel::Deref { lhs } => typed_ok_model(*lhs) && ty_of_model(*lhs).ptr_to is Some,
        NodeModel::Bin { lhs, rhs, .. } => typed_ok_model(*lhs) && typed_ok_model(*rhs),
        NodeModel::If { cond, body, els } => {
            &&& typed_ok_model(*cond)
            &&& typed_ok_model(*body)
            &&& (els matches Some(e) ==> typed_ok_model(*e))
        },
        NodeModel::While { cond, body } => typed_ok_model(*cond) && typed_ok_model(*body),
        NodeModel::For { preop, cond, postop, body } => {
            &&& (preop matches Some(e) ==> typed_ok_model(*e))
            &&& (cond matches Some(e) ==> typed_ok_model(*e))
            &&& (postop matches Some(e) ==> typed_ok_model(*e))
            &&& typed_ok_model(*body)
        },
        NodeModel::Block { blocks } => all_typed_ok_model(blocks),
        NodeModel::Func { args, .. } => all_typed_ok_model(args),
        NodeModel::Rt { lhs } => typed_ok_model(*lhs),
    }
}

/// `all_typed_ok` over models.
pub open spec fn all_typed_ok_model(s: Seq<NodeModel>) -> bool
    decreases s,
{
    s.len() == 0 || (typed_ok_model(s[0]) && all_typed_ok_model(s.subrange(1, s.len() as int)))
}

/// The typing closure agrees with its model form.
pub proof fn lemma_ty_model(n: Node)
    ensures
        ty_of_model(node_model(n)) == ty_of(n),
        typed_ok_model(node_model(n)) <==> typed_ok(n),
    decreases n,
{
    match n {
        Node::Num { .. } => {},
        Node::Lv { .. } => {},
        Node::Addr { lhs } => lemma_ty_model(*lhs),
        Node::Deref { lhs } => lemma_ty_model(*lhs),
        Node::Bin { lhs, rhs, .. } => {
            lemma_ty_model(*lhs);
            lemma_ty_model(*rhs);
        },
        Node::If { cond, body, els } => {
            lemma_ty_model(*cond);
            lemma_ty_model(*body);
            match els {
                Some(e) => lemma_ty_model(*e),
                None => {},
            }
        },
        Node::While { cond, body } => {
            lemma_ty_model(*cond);
            lemma_ty_model(*body);
        },
        Node::For { preop, cond, postop, body } => {
            match preop {
                Some(e) => lemma_ty_model(*e),
                None => {},
            }
            match cond {
                Some(e) => lemma_ty_model(*e),
                None => {},
            }
            match postop {
                Some(e) => lemma_ty_model(*e),
                None => {},
            }
            lemma_ty_model(*body);
        },
        Node::Block { blocks } => {
            lemma_ty_models(blocks@);
        },
        Node::Func { args, .. } => {
            lemma_ty_models(args@);
        },
        Node::Rt { lhs } => lemma_ty_model(*lhs),
    }
}

/// The sequence form of `lemma_ty_model`.
pub proof fn lemma_ty_models(s: Seq<Node>)
    ensures
        all_typed_ok_model(node_models(s)) <==> all_typed_ok(s),
    decreases s,
{
    if s.len() > 0 {
        lemma_ty_model(s[0]);
        lemma_ty_models(s.subrange(1, s.len() as int));
        assert(node_models(s)[0] == node_model(s[0]));
        assert(node_models(s).subrange(1, node_models(s).len() as int) =~= node_models(
            s.subrange(1, s.len() as int),
        ));
    }
}

/// The node that `+` builds, over models.
pub open spec fn new_add_model(l: NodeModel, r: NodeModel) -> NodeModel {
    if ty_of_model(l).kind == TypeKind::TyInt && ty_of_model(r).kind == TypeKind::TyInt {
        NodeModel::Bin { op: NodeKind::NdAdd, lhs: Box::new(l), rhs: Box::new(r) }
    } else if l is Addr {
        NodeModel::Bin {
            op: NodeKind::NdSub,
            lhs: Box::new(l),
            rhs: Box::new(
                NodeModel::Bin {
                    op: NodeKind::NdMul,
                    lhs: Box::new(r),
                    rhs: Box::new(NodeModel::Num { val: 8 }),
                },
            ),
        }
    } else {
        NodeModel::Bin { op: NodeKind::NdSub, lhs: Box::new(l), rhs: Box::new(r) }
    }
}

/// The node that `-` builds, over models.
pub open spec fn new_sub_model(l: NodeModel, r: NodeModel) -> NodeModel {
    if ty_of_model(l).kind == TypeKind::TyInt && ty_of_model(r).kind == TypeKind::TyInt {
        NodeModel::Bin { op: NodeKind::NdSub, lhs: Box::new(l), rhs: Box::new(r) }
    } else if l is Addr {
        NodeModel::Bin {
            op: NodeKind::NdAdd,
            lhs: Box::new(l),
            rhs: Box::new(
                NodeModel::Bin {
                    op: NodeKind::NdMul,
                    lhs: Box::new(r),
                    rhs: Box::new(NodeModel::Num { val: 8 }),
                },
            ),
        }
    } else {
        NodeModel::Bin { op: NodeKind::NdAdd, lhs: Box::new(l), rhs: Box::new(r) }
    }
}

/// The pointer-aware builders agree with their model forms (for
/// expression trees, whose kind tag matches their variant).
pub proof fn lemma_new_add_sub_model(l: Node, r: Node)
    requires
        expr_tree(l),
    ensures
        node_model(Node::spec_new_add(l, r)) == new_add_model(node_model(l), node_model(r)),
        node_model(Node::spec_new_sub(l, r)) == new_sub_model(node_model(l), node_model(r)),
{
    lemma_ty_model(l);
    lemma_ty_model(r);
    assert(node_model(Node::Num { val: 8 }) == NodeModel::Num { val: 8 });
    let scaled = Node::Bin {
        op: NodeKind::NdMul,
        lhs: Box::new(r),
        rhs: Box::new(Node::Num { val: 8 }),
    };
    assert(node_model(scaled) == NodeModel::Bin {
        op: NodeKind::NdMul,
        lhs: Box::new(node_model(r)),
        rhs: Box::new(NodeModel::Num { val: 8 }),
    });
    assert(node_model(Node::spec_new_add(l, r)) == new_add_model(node_model(l), node_model(r)));
    assert(node_model(Node::spec_new_sub(l, r)) == new_sub_model(node_model(l), node_model(r)));
}

/// The first local with the given name, over models.
pub open spec fn find_lvar_model(locs: Seq<LVarModel>, name: Seq<char>) -> Option<LVarModel>
    decreases locs,
{
    if locs.len() == 0 {
        None
    } else if locs[0].name == name {
        Some(locs[0])
    } else {
        find_lvar_model(locs.subrange(1, locs.len() as int), name)
    }
}

/// Local lookup agrees with its model form.
pub proof fn lemma_find_lvar_model(locals: Seq<LVar>, name: Seq<char>)
    ensures
        find_lvar_spec(locals, name) matches Some(v) ==> find_lvar_model(
            lvar_models(locals),
            name,
        ) == Some(lvar_model(v)),
        find_lvar_spec(locals, name) is None ==> find_lvar_model(lvar_models(locals), name)
            is None,
    decreases locals,
{
    if locals.len() > 0 {
        assert(lvar_models(locals)[0] == lvar_model(locals[0]));
        if locals[0].name@ != name {
            lemma_find_lvar_model(locals.subrange(1, locals.len() as int), name);
            assert(lvar_models(locals).subrange(1, lvar_models(locals).len() as int)
                =~= lvar_models(locals.subrange(1, locals.len() as int)));
        }
    }
}

/// The models of a token vector, in order.
pub open spec fn token_models(toks: Seq<Token>) -> Seq<TokenModel> {
    Seq::new(toks.len(), |i: int| toks[i]@)
}

/// `token_models` is the pointwise view.
pub proof fn lemma_token_models(toks: Seq<Token>)
    ensures
        token_models(toks).len() == toks.len(),
        forall|i: int| 0 <= i < toks.len() ==> #[trigger] token_models(toks)[i] == toks[i]@,
{
}

/// `lvar_models` is the pointwise model.
pub proof fn lemma_lvar_models(s: Seq<LVar>)
    ensures
        lvar_models(s).len() == s.len(),
        forall|i: int| 0 <= i < s.len() ==> #[trigger] lvar_models(s)[i] == lvar_model(s[i]),
{
}

/// `function_models` is the pointwise model.
pub proof fn lemma_function_models(s: Seq<Function>)
    ensures
        function_models(s).len() == s.len(),
        forall|i: int|
            0 <= i < s.len() ==> #[trigger] function_models(s)[i] == function_model(s[i]),
{
}


// ---------------------------------------------------------------------
// The specification of the parse
// ---------------------------------------------------------------------

/// True when the token at `pos` carries the given lexeme.
pub open spec fn tok_at(m: Seq<TokenModel>, pos: int, lexeme: Seq<char>) -> bool {
    0 <= pos < m.len() && m[pos].op == lexeme
}

/// A parse step advanced the cursor and stayed inside the tokens; every
/// sub-parse of the executable parser does, so the specification may
/// demand it where its own termination needs it.
pub open spec fn step_ok(lo: int, p: int, n: int) -> bool {
    lo < p <= n
}

/// Reads an optional type: `int` followed by any number of `*`; without
/// a leading `int` the cursor stays put and the `None` sentinel comes
/// back.
pub open spec fn parse_type(m: Seq<TokenModel>, pos: int) -> (Type, int) {
    if tok_at(m, pos, "int"@) {
        parse_type_stars(m, pos + 1, Type::spec_int())
    } else {
        (Type::spec_none(), pos)
    }
}

/// Wraps the accumulated type in one pointer layer per `*`.
pub open spec fn parse_type_stars(m: Seq<TokenModel>, pos: int, acc: Type) -> (Type, int)
    decreases m.len() - pos,
{
    if tok_at(m, pos, "*"@) {
        parse_type_stars(
            m,
            pos + 1,
            Type { kind: TypeKind::TyPtr, ptr_to: Some(Box::new(acc)), size: 8, size_array: 0 },
        )
    } else {
        (acc, pos)
    }
}

/// `primary = "(" expr ")" | ident ("(" args? ")")? | num`; any other
/// token is read as a number carrying its `val` field.
pub open spec fn parse_primary(m: Seq<TokenModel>, ls: Seq<LVarModel>, pos: int) -> Option<
    (NodeModel, int),
>
    decreases m.len() - pos, 1int,
{
    if tok_at(m, pos, "("@) {
        match parse_expr(m, ls, pos + 1) {
            Some((n, p1)) => if tok_at(m, p1, ")"@) {
                Some((n, p1 + 1))
            } else {
                None
            },
            None => None,
        }
    } else if 0 <= pos < m.len() && m[pos].kind == TokenKind::TkIdent {
        if tok_at(m, pos + 1, "("@) {
            match parse_funcargs(m, ls, pos + 2) {
                Some((args, p2)) => Some((NodeModel::Func { funcname: m[pos].op, args }, p2)),
                None => None,
            }
        } else {
            match find_lvar_model(ls, m[pos].op) {
                Some(v) => Some((NodeModel::Lv { lvar: v }, pos + 1)),
                None => None,
            }
        }
    } else if 0 <= pos < m.len() {
        Some((NodeModel::Num { val: m[pos].val }, pos + 1))
    } else {
        None
    }
}

/// `unary = ("+" | "-" | "&" | "*" | "sizeof") unary | primary`.
pub open spec fn parse_unary(m: Seq<TokenModel>, ls: Seq<LVarModel>, pos: int) -> Option<
    (NodeModel, int),
>
    decreases m.len() - pos, 2int,
{
    if tok_at(m, pos, "+"@) {
        parse_unary(m, ls, pos + 1)
    } else if tok_at(m, pos, "-"@) {
        match parse_unary(m, ls, pos + 1) {
            Some((n, p)) => Some(
                (
                    NodeModel::Bin {
                        op: NodeKind::NdSub,
                        lhs: Box::new(NodeModel::Num { val: 0 }),
                        rhs: Box::new(n),
                    },
                    p,
                ),
            ),
            None => None,
        }
    } else if tok_at(m, pos, "&"@) {
        match parse_unary(m, ls, pos + 1) {
            Some((n, p)) => Some((NodeModel::Addr { lhs: Box::new(n) }, p)),
            None => None,
        }
    } else if tok_at(m, pos, "*"@) {
        match parse_unary(m, ls, pos + 1) {
            Some((n, p)) => Some((NodeModel::Deref { lhs: Box::new(n) }, p)),
            None => None,
        }
    } else if tok_at(m, pos, "sizeof"@) {
        match parse_unary(m, ls, pos + 1) {
            Some((n, p)) => if typed_ok_model(n) {
                Some(
                    (
                        NodeModel::Num {
                            val: if ty_of_model(n).kind == TypeKind::TyInt {
                                4
                            } else {
                                8
                            },
                        },
                        p,
                    ),
                )
            } else {
                None
            },
            None => None,
        }
    } else {
        parse_primary(m, ls, pos)
    }
}

/// `mul = unary (("*" | "/") unary)*`.
pub open spec fn parse_mul(m: Seq<TokenModel>, ls: Seq<LVarModel>, pos: int) -> Option<
    (NodeModel, int),
>
    decreases m.len() - pos, 3int,
{
    match parse_unary(m, ls, pos) {
        Some((n, p1)) => if step_ok(pos, p1, m.len() as int) {
            parse_mul_more(m, ls, n, p1)
        } else {
            None
        },
        None => None,
    }
}

/// The multiplicative continuation: folds `* unary` and `/ unary` onto
/// the running left operand.
pub open spec fn parse_mul_more(
    m: Seq<TokenModel>,
    ls: Seq<LVarModel>,
    lhs: NodeModel,
    pos: int,
) -> Option<(NodeModel, int)>
    decreases m.len() - pos, 0int,
{
    if tok_at(m, pos, "*"@) {
        match parse_unary(m, ls, pos + 1) {
            Some((r, p2)) => if step_ok(pos, p2, m.len() as int) {
                parse_mul_more(
                    m,
                    ls,
                    NodeModel::Bin { op: NodeKind::NdMul, lhs: Box::new(lhs), rhs: Box::new(r) },
                    p2,
                )
            } else {
                None
            },
            None => None,
        }
    } else if tok_at(m, pos, "/"@) {
        match parse_unary(m, ls, pos + 1) {
            Some((r, p2)) => if step_ok(pos, p2, m.len() as int) {
                parse_mul_more(
                    m,
                    ls,
                    NodeModel::Bin { op: NodeKind::NdDiv, lhs: Box::new(lhs), rhs: Box::new(r) },
                    p2,
                )
            } else {
                None
            },
            None => None,
        }
    } else {
        Some((lhs, pos))
    }
}

/// `add = mul (("+" | "-") mul)*`, through the pointer-aware builders,
/// which type both sides and fail on an ill-typed dereference.
pub open spec fn parse_add(m: Seq<TokenModel>, ls: Seq<LVarModel>, pos: int) -> Option<
    (NodeModel, int),
>
    decreases m.len() - pos, 4int,
{
    match parse_mul(m, ls, pos) {
        Some((n, p1)) => if step_ok(pos, p1, m.len() as int) {
            parse_add_more(m, ls, n, p1)
        } else {
            None
        },
        None => None,
    }
}

/// The additive continuation.
pub open spec fn parse_add_more(
    m: Seq<TokenModel>,
    ls: Seq<LVarModel>,
    lhs: NodeModel,
    pos: int,
) -> Option<(NodeModel, int)>
    decreases m.len() - pos, 0int,
{
    if tok_at(m, pos, "+"@) {
        match parse_mul(m, ls, pos + 1) {
            Some((r, p2)) => if !(typed_ok_model(lhs) && typed_ok_model(r)) {
                None
            } else if step_ok(pos, p2, m.len() as int) {
                parse_add_more(m, ls, new_add_model(lhs, r), p2)
            } else {
                None
            },
            None => None,
        }
    } else if tok_at(m, pos, "-"@) {
        match parse_mul(m, ls, pos + 1) {
            Some((r, p2)) => if !(typed_ok_model(lhs) && typed_ok_model(r)) {
                None
            } else if step_ok(pos, p2, m.len() as int) {
                parse_add_more(m, ls, new_sub_model(lhs, r), p2)
            } else {
                None
            },
            None => None,
        }
    } else {
        Some((lhs, pos))
    }
}

/// `relational = add ((">" | "<" | ">=" | "<=") add)*`, `>` making an
/// `NdMt` node, `<` `NdLt`, `>=` `NdOm`, `<=` `NdOl`.
pub open spec fn parse_relational(m: Seq<TokenModel>, ls: Seq<LVarModel>, pos: int) -> Option<
    (NodeModel, int),
>
    decreases m.len() - pos, 5int,
{
    match parse_add(m, ls, pos) {
        Some((n, p1)) => if step_ok(pos, p1, m.len() as int) {
            parse_rel_more(m, ls, n, p1)
        } else {
            None
        },
        None => None,
    }
}

/// The relational continuation.
pub open spec fn parse_rel_more(
    m: Seq<TokenModel>,
    ls: Seq<LVarModel>,
    lhs: NodeModel,
    pos: int,
) -> Option<(NodeModel, int)>
    decreases m.len() - pos, 0int,
{
    if tok_at(m, pos, ">"@) {
        match parse_add(m, ls, pos + 1) {
            Some((r, p2)) => if step_ok(pos, p2, m.len() as int) {
                parse_rel_more(
                    m,
                    ls,
                    NodeModel::Bin { op: NodeKind::NdMt, lhs: Box::new(lhs), rhs: Box::new(r) },
                    p2,
                )
            } else {
                None
            },
            None => None,
        }
    } else if tok_at(m, pos, "<"@) {
        match parse_add(m, ls, pos + 1) {
            Some((r, p2)) => if step_ok(pos, p2, m.len() as int) {
                parse_rel_more(
                    m,
                    ls,
                    NodeModel::Bin { op: NodeKind::NdLt, lhs: Box::new(lhs), rhs: Box::new(r) },
                    p2,
                )
            } else {
                None
            },
            None => None,
        }
    } else if tok_at(m, pos, ">="@) {
        match parse_add(m, ls, pos + 1) {
            Some((r, p2)) => if step_ok(pos, p2, m.len() as int) {
                parse_rel_more(
                    m,
                    ls,
                    NodeModel::Bin { op: NodeKind::NdOm, lhs: Box::new(lhs), rhs: Box::new(r) },
                    p2,
                )
            } else {
                None
            },
            None => None,
        }
    } else if tok_at(m, pos, "<="@) {
        match parse_add(m, ls, pos + 1) {
            Some((r, p2)) => if step_ok(pos, p2, m.len() as int) {
                parse_rel_more(
                    m,
                    ls,
                    NodeModel::Bin { op: NodeKind::NdOl, lhs: Box::new(lhs), rhs: Box::new(r) },
                    p2,
                )
            } else {
                None
            },
            None => None,
        }
    } else {
        Some((lhs, pos))
    }
}

/// `equality = relational (("==" | "!=") …)*` — the right operand comes
/// from the `mul` production, not `relational`: the associativity wart
/// this compiler keeps.
pub open spec fn parse_equality(m: Seq<TokenModel>, ls: Seq<LVarModel>, pos: int) -> Option<
    (NodeModel, int),
>
    decreases m.len() - pos, 6int,
{
    match parse_relational(m, ls, pos) {
        Some((n, p1)) => if step_ok(pos, p1, m.len() as int) {
            parse_eq_more(m, ls, n, p1)
        } else {
            None
        },
        None => None,
    }
}

/// The equality continuation; note the `parse_mul` right operands.
pub open spec fn parse_eq_more(
    m: Seq<TokenModel>,
    ls: Seq<LVarModel>,
    lhs: NodeModel,
    pos: int,
) -> Option<(NodeModel, int)>
    decreases m.len() - pos, 0int,
{
    if tok_at(m, pos, "=="@) {
        match parse_mul(m, ls, pos + 1) {
            Some((r, p2)) => if step_ok(pos, p2, m.len() as int) {
                parse_eq_more(
                    m,
                    ls,
                    NodeModel::Bin { op: NodeKind::NdEq, lhs: Box::new(lhs), rhs: Box::new(r) },
                    p2,
                )
            } else {
                None
            },
            None => None,
        }
    } else if tok_at(m, pos, "!="@) {
        match parse_mul(m, ls, pos + 1) {
            Some((r, p2)) => if step_ok(pos, p2, m.len() as int) {
                parse_eq_more(
                    m,
                    ls,
                    NodeModel::Bin { op: NodeKind::NdNe, lhs: Box::new(lhs), rhs: Box::new(r) },
                    p2,
                )
            } else {
                None
            },
            None => None,
        }
    } else {
        Some((lhs, pos))
    }
}

/// `assign = equality ("=" assign)?`, right-associative.
pub open spec fn parse_assign(m: Seq<TokenModel>, ls: Seq<LVarModel>, pos: int) -> Option<
    (NodeModel, int),
>
    decreases m.len() - pos, 7int,
{
    match parse_equality(m, ls, pos) {
        Some((l, p1)) => if !step_ok(pos, p1, m.len() as int) {
            None
        } else if tok_at(m, p1, "="@) {
            match parse_assign(m, ls, p1 + 1) {
                Some((r, p2)) => Some(
                    (
                        NodeModel::Bin { op: NodeKind::NdAs, lhs: Box::new(l), rhs: Box::new(r) },
                        p2,
                    ),
                ),
                None => None,
            }
        } else {
            Some((l, p1))
        },
        None => None,
    }
}

/// `expr = assign`.
pub open spec fn parse_expr(m: Seq<TokenModel>, ls: Seq<LVarModel>, pos: int) -> Option<
    (NodeModel, int),
>
    decreases m.len() - pos, 8int,
{
    parse_assign(m, ls, pos)
}

/// The call arguments after the opening parenthesis: empty at an
/// immediate `)`, else additive expressions separated by commas, the
/// closing parenthesis demanded.
pub open spec fn parse_funcargs(m: Seq<TokenModel>, ls: Seq<LVarModel>, pos: int) -> Option<
    (Seq<NodeModel>, int),
>
    decreases m.len() - pos, 5int,
{
    if tok_at(m, pos, ")"@) {
        Some((Seq::<NodeModel>::empty(), pos + 1))
    } else {
        match parse_add(m, ls, pos) {
            Some((a, p1)) => if !step_ok(pos, p1, m.len() as int) {
                None
            } else {
                match parse_args_more(m, ls, p1, seq![a]) {
                    Some((args, p2)) => if tok_at(m, p2, ")"@) {
                        Some((args, p2 + 1))
                    } else {
                        None
                    },
                    None => None,
                }
            },
            None => None,
        }
    }
}

/// The argument continuation: one more additive expression per comma.
pub open spec fn parse_args_more(
    m: Seq<TokenModel>,
    ls: Seq<LVarModel>,
    pos: int,
    acc: Seq<NodeModel>,
) -> Option<(Seq<NodeModel>, int)>
    decreases m.len() - pos, 0int,
{
    if tok_at(m, pos, ","@) {
        match parse_add(m, ls, pos + 1) {
            Some((a, p2)) => if step_ok(pos, p2, m.len() as int) {
                parse_args_more(m, ls, p2, acc.push(a))
            } else {
                None
            },
            None => None,
        }
    } else {
        Some((acc, pos))
    }
}

/// One optional slot of a `for` header: nothing when the stopping
/// lexeme is already there (or the tokens ran out), else an expression
/// run through the typing closure.
pub open spec fn parse_for_part(
    m: Seq<TokenModel>,
    ls: Seq<LVarModel>,
    pos: int,
    stop: Seq<char>,
) -> Option<(Option<Box<NodeModel>>, int)> {
    if 0 <= pos < m.len() && m[pos].op != stop {
        match parse_expr(m, ls, pos) {
            Some((e, q)) => if typed_ok_model(e) {
                Some((Some(Box::new(e)), q))
            } else {
                None
            },
            None => None,
        }
    } else {
        Some((None, pos))
    }
}

/// The brace-block form of a statement.
pub open spec fn parse_block_stmt(m: Seq<TokenModel>, ls: Seq<LVarModel>, pos: int) -> Option<
    (NodeModel, Seq<LVarModel>, int),
>
    decreases m.len() - pos, 8int,
{
    if !(0 <= pos < m.len()) {
        None
    } else {
        match parse_block_items(m, ls, pos + 1) {
            Some((items, ls2, p)) => Some((NodeModel::Block { blocks: items }, ls2, p)),
            None => None,
        }
    }
}

/// The `return` form of a statement.
pub open spec fn parse_return_stmt(m: Seq<TokenModel>, ls: Seq<LVarModel>, pos: int) -> Option<
    (NodeModel, Seq<LVarModel>, int),
>
{
    match parse_expr(m, ls, pos + 1) {
        Some((e, p)) => if tok_at(m, p, ";"@) {
            Some((NodeModel::Rt { lhs: Box::new(e) }, ls, p + 1))
        } else {
            None
        },
        None => None,
    }
}

/// The `if` form of a statement.
pub open spec fn parse_if_stmt(m: Seq<TokenModel>, ls: Seq<LVarModel>, pos: int) -> Option<
    (NodeModel, Seq<LVarModel>, int),
>
    decreases m.len() - pos, 8int,
{
    if !tok_at(m, pos + 1, "("@) {
        None
    } else {
        match parse_expr(m, ls, pos + 2) {
            Some((c, p1)) => if !typed_ok_model(c) {
                None
            } else if !tok_at(m, p1, ")"@) {
                None
            } else if !step_ok(pos, p1 + 1, m.len() as int) {
                None
            } else {
                match parse_stmt(m, ls, p1 + 1) {
                    Some((b, ls2, p2)) => if !typed_ok_model(b) {
                        None
                    } else if tok_at(m, p2, "else"@) {
                        if !step_ok(pos, p2 + 1, m.len() as int) {
                            None
                        } else {
                            match parse_stmt(m, ls2, p2 + 1) {
                                Some((e2, ls3, p3)) => if !typed_ok_model(e2) {
                                    None
                                } else {
                                    Some(
                                        (
                                            NodeModel::If {
                                                cond: Box::new(c),
                                                body: Box::new(b),
                                                els: Some(Box::new(e2)),
                                            },
                                            ls3,
                                            p3,
                                        ),
                                    )
                                },
                                None => None,
                            }
                        }
                    } else {
                        Some(
                            (
                                NodeModel::If {
                                    cond: Box::new(c),
                                    body: Box::new(b),
                                    els: None,
                                },
                                ls2,
                                p2,
                            ),
                        )
                    },
                    None => None,
                }
            },
            None => None,
        }
    }
}

/// The `while` form of a statement.
pub open spec fn parse_while_stmt(m: Seq<TokenModel>, ls: Seq<LVarModel>, pos: int) -> Option<
    (NodeModel, Seq<LVarModel>, int),
>
    decreases m.len() - pos, 8int,
{
    if !tok_at(m, pos + 1, "("@) {
        None
    } else {
        match parse_expr(m, ls, pos + 2) {
            Some((c, p1)) => if !typed_ok_model(c) {
                None
            } else if !tok_at(m, p1, ")"@) {
                None
            } else if !step_ok(pos, p1 + 1, m.len() as int) {
                None
            } else {
                match parse_stmt(m, ls, p1 + 1) {
                    Some((b, ls2, p2)) => if !typed_ok_model(b) {
                        None
                    } else {
                        Some(
                            (
                                NodeModel::While { cond: Box::new(c), body: Box::new(b) },
                                ls2,
                                p2,
                            ),
                        )
                    },
                    None => None,
                }
            },
            None => None,
        }
    }
}

/// The `for` form of a statement.
pub open spec fn parse_for_stmt(m: Seq<TokenModel>, ls: Seq<LVarModel>, pos: int) -> Option<
    (NodeModel, Seq<LVarModel>, int),
>
    decreases m.len() - pos, 8int,
{
    if !tok_at(m, pos + 1, "("@) {
        None
    } else {
        match parse_for_part(m, ls, pos + 2, ";"@) {
            Some((preop, q1)) => if !step_ok(pos, q1, m.len() as int) {
                None
            } else if !tok_at(m, q1, ";"@) {
                None
            } else {
                match parse_for_part(m, ls, q1 + 1, ";"@) {
                    Some((cond, q3)) => if !step_ok(pos, q3, m.len() as int) {
                        None
                    } else if !tok_at(m, q3, ";"@) {
                        None
                    } else {
                        match parse_for_part(m, ls, q3 + 1, ")"@) {
                            Some((postop, q5)) => if !step_ok(pos, q5, m.len() as int) {
                                None
                            } else if !tok_at(m, q5, ")"@) {
                                None
                            } else if !step_ok(pos, q5 + 1, m.len() as int) {
                                None
                            } else {
                                match parse_stmt(m, ls, q5 + 1) {
                                    Some((b, ls2, q6)) => if !typed_ok_model(b) {
                                        None
                                    } else {
                                        Some(
                                            (
                                                NodeModel::For {
                                                    preop,
                                                    cond,
                                                    postop,
                                                    body: Box::new(b),
                                                },
                                                ls2,
                                                q6,
                                            ),
                                        )
                                    },
                                    None => None,
                                }
                            },
                            None => None,
                        }
                    },
                    None => None,
                }
            },
            None => None,
        }
    }
}

/// The bare-expression form of a statement.
pub open spec fn parse_expr_stmt(m: Seq<TokenModel>, ls: Seq<LVarModel>, pos: int) -> Option<
    (NodeModel, Seq<LVarModel>, int),
>
{
    match parse_expr(m, ls, pos) {
        Some((e, p)) => if tok_at(m, p, ";"@) {
            Some((e, ls, p + 1))
        } else {
            None
        },
        None => None,
    }
}

/// One statement, with the locals it leaves behind: a declaration
/// appends exactly one local carrying the declared type, the declared
/// name, and the next frame index, and yields a reference to it; the
/// other forms parse as the grammar says, each parsed condition and
/// each control body run through the typing closure.
pub open spec fn parse_stmt(m: Seq<TokenModel>, ls: Seq<LVarModel>, pos: int) -> Option<
    (NodeModel, Seq<LVarModel>, int),
>
    decreases m.len() - pos, 9int,
{
    if tok_at(m, pos, "{"@) {
        parse_block_stmt(m, ls, pos)
    } else {
        let tp = parse_type(m, pos);
        if tp.0.kind != TypeKind::TyNone {
            let p1 = tp.1;
            if 0 <= p1 < m.len() && m[p1].kind == TokenKind::TkIdent && tok_at(m, p1 + 1, ";"@) {
                let lv = LVarModel { ty: tp.0, name: m[p1].op, id: ls.len() as usize };
                Some((NodeModel::Lv { lvar: lv }, ls.push(lv), p1 + 2))
            } else {
                None
            }
        } else if tok_at(m, pos, "return"@) {
            parse_return_stmt(m, ls, pos)
        } else if tok_at(m, pos, "if"@) {
            parse_if_stmt(m, ls, pos)
        } else if tok_at(m, pos, "while"@) {
            parse_while_stmt(m, ls, pos)
        } else if tok_at(m, pos, "for"@) {
            parse_for_stmt(m, ls, pos)
        } else {
            parse_expr_stmt(m, ls, pos)
        }
    }
}

/// The statements of a brace block up to and past the closing `}`; the
/// executable generator's per-statement pop makes each one a statement
/// of the enclosing function, so each runs through the typing closure.
pub open spec fn parse_block_items(m: Seq<TokenModel>, ls: Seq<LVarModel>, pos: int) -> Option<
    (Seq<NodeModel>, Seq<LVarModel>, int),
>
    decreases m.len() - pos, 10int,
{
    if tok_at(m, pos, "}"@) {
        Some((Seq::<NodeModel>::empty(), ls, pos + 1))
    } else if !(0 <= pos < m.len()) {
        None
    } else {
        match parse_stmt(m, ls, pos) {
            Some((s0, ls2, p1)) => if !typed_ok_model(s0) {
                None
            } else if !step_ok(pos, p1, m.len() as int) {
                None
            } else {
                match parse_block_items(m, ls2, p1) {
                    Some((rest, ls3, p2)) => Some((seq![s0] + rest, ls3, p2)),
                    None => None,
                }
            },
            None => None,
        }
    }
}

/// A function body's statements up to and past the closing `}`, each
/// run through the typing closure.
pub open spec fn parse_fn_body(m: Seq<TokenModel>, ls: Seq<LVarModel>, pos: int) -> Option<
    (Seq<NodeModel>, Seq<LVarModel>, int),
>
    decreases m.len() - pos, 10int,
{
    if !(0 <= pos < m.len()) {
        None
    } else if m[pos].op == "}"@ {
        Some((Seq::<NodeModel>::empty(), ls, pos + 1))
    } else {
        match parse_stmt(m, ls, pos) {
            Some((s0, ls2, p1)) => if !typed_ok_model(s0) {
                None
            } else if !step_ok(pos, p1, m.len() as int) {
                None
            } else {
                match parse_fn_body(m, ls2, p1) {
                    Some((rest, ls3, p2)) => Some((seq![s0] + rest, ls3, p2)),
                    None => None,
                }
            },
            None => None,
        }
    }
}

/// The parameter continuation: one more `type ident` per comma, each
/// parameter taking the next frame index.
pub open spec fn parse_params_more(m: Seq<TokenModel>, pos: int, acc: Seq<LVarModel>) -> Option<
    (Seq<LVarModel>, int),
>
    decreases m.len() - pos, 0int,
{
    if tok_at(m, pos, ","@) {
        let tq = parse_type(m, pos + 1);
        if !(0 <= tq.1 < m.len() && m[tq.1].kind == TokenKind::TkIdent) {
            None
        } else {
            let lv = LVarModel { ty: tq.0, name: m[tq.1].op, id: acc.len() as usize };
            if !step_ok(pos, tq.1 + 1, m.len() as int) {
                None
            } else {
                parse_params_more(m, tq.1 + 1, acc.push(lv))
            }
        }
    } else {
        Some((acc, pos))
    }
}

/// One function definition: return type, name, the parenthesized
/// parameter list whose entries become the first locals in declaration
/// order, and the brace-delimited body; `paramnum` is the declared
/// parameter count.
pub open spec fn parse_function(m: Seq<TokenModel>, pos: int) -> Option<(FunctionModel, int)>
    decreases m.len() - pos, 11int,
{
    let tp = parse_type(m, pos);
    let p1 = tp.1;
    if !(0 <= p1 < m.len() && m[p1].kind == TokenKind::TkIdent) {
        None
    } else if !tok_at(m, p1 + 1, "("@) {
        None
    } else {
        let p3 = p1 + 2;
        let pr: Option<(Seq<LVarModel>, int)> = if tok_at(m, p3, ")"@) {
            Some((Seq::<LVarModel>::empty(), p3 + 1))
        } else {
            let tq = parse_type(m, p3);
            if !(0 <= tq.1 < m.len() && m[tq.1].kind == TokenKind::TkIdent) {
                None
            } else {
                let lv = LVarModel { ty: tq.0, name: m[tq.1].op, id: 0 };
                if !step_ok(pos, tq.1 + 1, m.len() as int) {
                    None
                } else {
                    match parse_params_more(m, tq.1 + 1, seq![lv]) {
                        Some((ps, q)) => if tok_at(m, q, ")"@) {
                            Some((ps, q + 1))
                        } else {
                            None
                        },
                        None => None,
                    }
                }
            }
        };
        match pr {
            Some((params, p4)) => if !tok_at(m, p4, "{"@) {
                None
            } else if !step_ok(pos, p4 + 1, m.len() as int) {
                None
            } else {
                match parse_fn_body(m, params, p4 + 1) {
                    Some((body, locs, p5)) => Some(
                        (
                            FunctionModel {
                                ty: tp.0.kind,
                                name: m[p1].op,
                                paramnum: params.len() as usize,
                                locals: locs,
                                body,
                            },
                            p5,
                        ),
                    ),
                    None => None,
                }
            },
            None => None,
        }
    }
}

/// `program = function*`: one function per definition, in source order,
/// until the terminating `Eof` token (or the end of the tokens).
pub open spec fn parse_program(m: Seq<TokenModel>, pos: int) -> Option<(Seq<FunctionModel>, int)>
    decreases m.len() - pos, 12int,
{
    if !(0 <= pos < m.len()) {
        Some((Seq::<FunctionModel>::empty(), pos))
    } else if m[pos].kind == TokenKind::TkEof {
        Some((Seq::<FunctionModel>::empty(), pos))
    } else {
        match parse_function(m, pos) {
            Some((f, p1)) => if !step_ok(pos, p1, m.len() as int) {
                None
            } else {
                match parse_program(m, p1) {
                    Some((rest, p2)) => Some((seq![f] + rest, p2)),
                    None => None,
                }
            },
            None => None,
        }
    }
}

} // verus!

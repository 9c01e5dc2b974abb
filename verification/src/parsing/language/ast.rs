//! Implements the AST in the parser description language.

use vstd::prelude::*;

use crate::parsing::language::Int;

verus! {

/// References a name in the language.
#[derive(Debug, Hash)]
pub struct Symbol {
    /// The name being referenced.
    name: String,
}

impl Symbol {
    /// Creates a symbol for the given name.
    pub fn new(name: &str) -> (r: Symbol)
        ensures
            r@ == name@,
    {
        Symbol { name: name.to_owned() }
    }

    /// The name being referenced.
    pub fn to_string(&self) -> (r: String)
        ensures
            r@ == self@,
    {
        self.name.clone()
    }

    /// Whether both symbols reference the same name.
    pub fn equals(&self, other: &Symbol) -> (r: bool)
        ensures
            r == (self@ == other@),
    {
        self.name == other.name
    }
}

impl View for Symbol {
    type V = Seq<char>;

    closed spec fn view(&self) -> Seq<char> {
        self.name@
    }
}

impl Clone for Symbol {
    fn clone(&self) -> (r: Symbol)
        ensures
            r@ == self@,
    {
        Symbol { name: self.name.clone() }
    }
}

/// The type of binary operation to perform.
#[derive(Debug, Clone, Copy, PartialEq, Eq, Structural)]
pub enum BinOp {
    /// Perform addition.
    Add,
    /// Perform subtraction.
    Sub,
    /// Perform multiplication.
    Mul,
    /// Compute the remainder of a division.
    Mod,
    /// Compare for equality.
    Eq,
    /// Compare for inequality.
    Neq,
    /// Compare whether the left side is smaller.
    Lt,
    /// Compare whether the left side is greater or equal.
    Geq,
    /// Perform a bitwise and.
    And,
}

/// The type of unary operation to perform.
#[derive(Debug, Clone, Copy, PartialEq, Eq, Structural)]
pub enum UnOp {
    /// Negate a boolean.
    Not,
}

/// Represents an expression in the AST.
pub struct Expr {
    /// The kind of the expression.
    pub kind: ExprKind,
}

/// The kind of an expression.
#[allow(inconsistent_fields)]
pub enum ExprKind {
    /// The expression is a constant integer value.
    ConstantInt {
        /// The value of the constant integer.
        value: Int,
    },
    /// The expression is a constant byte slice.
    ConstantBytes {
        /// The value of the constant byte slice.
        value: Vec<u8>,
    },
    /// The expression refers to the current offset.
    Offset,
    /// The expression is a unary operation.
    UnOp {
        /// The operand of the expression.
        operand: Box<Expr>,
        /// The operator of the expression.
        op: UnOp,
    },
    /// The expression is a binary operation.
    BinOp {
        /// The left operand of the expression.
        left: Box<Expr>,
        /// The right operand of the expression.
        right: Box<Expr>,
        /// The operator of the expression.
        op: BinOp,
    },
    /// The expression is a use of a variable.
    VariableUse {
        /// The variable references by the expression.
        var: Symbol,
    },
    /// The expression accesses a field.
    FieldAccess {
        /// The expression resolving to the holder of the field.
        field_holder: Box<Expr>,
        /// The field that is being held.
        field: Symbol,
    },
    /// The expression chooses between two expressions by a condition.
    If {
        /// The condition that chooses.
        condition: Box<Expr>,
        /// The expression used where the condition holds.
        true_branch: Box<Expr>,
        /// The expression used where the condition does not hold.
        false_branch: Box<Expr>,
    },
    /// The expression refers to the last parsed element.
    Last,
    /// The expression refers to the enclosing structure.
    Parent,
    /// The expression parses a node at the current offset.
    ParseAt {
        /// The node to parse.
        node: Box<Node>,
    },
}

/// A node to be parsed.
pub struct Node {
    /// The kind of node.
    pub kind: NodeKind,
    /// Parse this at the given offset instead of after the previous field.
    pub offset: Option<Expr>,
}

/// The kind of a node that can be parsed.
pub enum NodeKind {
    /// Fixed bytes are expected.
    FixedBytes {
        /// The bytes to expect.
        expected: Expr,
    },
    /// Bytes of a fixed length are parsed.
    FixedLength {
        /// The number of bytes to be parsed.
        length: Expr,
    },
    /// Parses an integer with a given bit width from the input.
    Integer {
        /// The bit width to use.
        bit_width: u32,
        /// Whether the integer is signed.
        signed: bool,
    },
    /// A composite node consisting of multiple named subnodes.
    Struct {
        /// The nodes that make up the struct.
        nodes: Vec<(Symbol, Node)>,
    },
    /// Repeats a node `count` times.
    RepeatCount {
        /// The node to parse.
        node: Box<Node>,
        /// The number of times to parse the node.
        count: Expr,
    },
    /// Repeats while the provided condition is true.
    RepeatWhile {
        /// The node to parse.
        node: Box<Node>,
        /// The condition that is checked.
        condition: Expr,
    },
    /// Parses the node of the first branch whose value matches the scrutinee.
    Switch {
        /// The value that selects the branch.
        scrutinee: Expr,
        /// The branches with the value that selects them.
        branches: Vec<(Expr, Node)>,
        /// The node parsed where no branch matches.
        default: Box<Node>,
    },
    /// Parses the node defined under the given name.
    NamedNode {
        /// The name of the node.
        name: Symbol,
    },
    /// Parses one of two nodes depending on a condition.
    ParseIf {
        /// The condition that chooses the node.
        condition: Expr,
        /// The node parsed where the condition holds.
        true_node: Box<Node>,
        /// The node parsed where the condition does not hold.
        false_node: Box<Node>,
    },
    /// Parses a node elsewhere, without moving the current offset.
    Elsewhere {
        /// The node to parse.
        node: Box<Node>,
    },
}

/// An expression as plain values: names as character sequences, constants as numbers and
/// bytes.
#[verifier::ext_equal]
pub enum SExpr {
    /// A constant integer.
    ConstantInt(int),
    /// A constant byte sequence.
    ConstantBytes(Seq<u8>),
    /// The current offset.
    Offset,
    /// A unary operation on an operand.
    UnOp(Box<SExpr>, UnOp),
    /// A binary operation: left operand, operator, right operand.
    BinOp(Box<SExpr>, BinOp, Box<SExpr>),
    /// The use of a variable.
    VariableUse(Seq<char>),
    /// A field of the value of an expression.
    FieldAccess(Box<SExpr>, Seq<char>),
    /// A choice by a condition: condition, then the two branches.
    If(Box<SExpr>, Box<SExpr>, Box<SExpr>),
    /// The last parsed element.
    Last,
    /// The enclosing structure.
    Parent,
    /// A node parsed at the current offset.
    ParseAt(Box<SNode>),
}

/// A node as plain values.
#[verifier::ext_equal]
pub struct SNode {
    /// The kind of node.
    pub kind: SNodeKind,
    /// The offset at which the node is read, if it has one.
    pub offset: Option<SExpr>,
}

/// The kind of a node as plain values.
#[verifier::ext_equal]
pub enum SNodeKind {
    /// The expected bytes.
    FixedBytes(SExpr),
    /// Bytes of the given length.
    FixedLength(SExpr),
    /// An integer of a bit width, signed or not.
    Integer(u32, bool),
    /// Named nodes, one after another.
    Struct(Seq<(Seq<char>, SNode)>),
    /// A node repeated as often as the count says.
    RepeatCount(Box<SNode>, SExpr),
    /// A node repeated while the condition holds.
    RepeatWhile(Box<SNode>, SExpr),
    /// The scrutinee, the branches with the values that select them, and the default.
    Switch(SExpr, Seq<(SExpr, SNode)>, Box<SNode>),
    /// The node defined under a name.
    NamedNode(Seq<char>),
    /// One of two nodes by a condition: condition, node where it holds, node where not.
    ParseIf(SExpr, Box<SNode>, Box<SNode>),
    /// A node read without moving the current offset.
    Elsewhere(Box<SNode>),
}

impl Expr {
    /// The expression as plain values.
    pub open spec fn deep(&self) -> SExpr
        decreases self,
    {
        match &self.kind {
            ExprKind::ConstantInt { value } => SExpr::ConstantInt(value@),
            ExprKind::ConstantBytes { value } => SExpr::ConstantBytes(value@),
            ExprKind::Offset => SExpr::Offset,
            ExprKind::UnOp { operand, op } => SExpr::UnOp(Box::new(operand.deep()), *op),
            ExprKind::BinOp { left, right, op } => SExpr::BinOp(
                Box::new(left.deep()),
                *op,
                Box::new(right.deep()),
            ),
            ExprKind::VariableUse { var } => SExpr::VariableUse(var@),
            ExprKind::FieldAccess { field_holder, field } => SExpr::FieldAccess(
                Box::new(field_holder.deep()),
                field@,
            ),
            ExprKind::If { condition, true_branch, false_branch } => SExpr::If(
                Box::new(condition.deep()),
                Box::new(true_branch.deep()),
                Box::new(false_branch.deep()),
            ),
            ExprKind::Last => SExpr::Last,
            ExprKind::Parent => SExpr::Parent,
            ExprKind::ParseAt { node } => SExpr::ParseAt(Box::new(node.deep())),
        }
    }
}

impl Node {
    /// The node as plain values.
    pub open spec fn deep(&self) -> SNode
        decreases self,
    {
        SNode {
            kind: match &self.kind {
                NodeKind::FixedBytes { expected } => SNodeKind::FixedBytes(expected.deep()),
                NodeKind::FixedLength { length } => SNodeKind::FixedLength(length.deep()),
                NodeKind::Integer { bit_width, signed } => SNodeKind::Integer(*bit_width, *signed),
                NodeKind::Struct { nodes } => SNodeKind::Struct(
                    Seq::new(
                        nodes@.len(),
                        |i: int|
                            if 0 <= i < nodes@.len() {
                                (nodes@[i].0@, nodes@[i].1.deep())
                            } else {
                                (Seq::empty(), SNode { kind: SNodeKind::Integer(0, false), offset: None })
                            },
                    ),
                ),
                NodeKind::RepeatCount { node, count } => SNodeKind::RepeatCount(
                    Box::new(node.deep()),
                    count.deep(),
                ),
                NodeKind::RepeatWhile { node, condition } => SNodeKind::RepeatWhile(
                    Box::new(node.deep()),
                    condition.deep(),
                ),
                NodeKind::Switch { scrutinee, branches, default } => SNodeKind::Switch(
                    scrutinee.deep(),
                    Seq::new(
                        branches@.len(),
                        |i: int|
                            if 0 <= i < branches@.len() {
                                (branches@[i].0.deep(), branches@[i].1.deep())
                            } else {
                                (SExpr::Offset, SNode { kind: SNodeKind::Integer(0, false), offset: None })
                            },
                    ),
                    Box::new(default.deep()),
                ),
                NodeKind::NamedNode { name } => SNodeKind::NamedNode(name@),
                NodeKind::ParseIf { condition, true_node, false_node } => SNodeKind::ParseIf(
                    condition.deep(),
                    Box::new(true_node.deep()),
                    Box::new(false_node.deep()),
                ),
                NodeKind::Elsewhere { node } => SNodeKind::Elsewhere(Box::new(node.deep())),
            },
            offset: match &self.offset {
                Some(offset) => Some(offset.deep()),
                None => None,
            },
        }
    }
}

impl SExpr {
    /// The constant integer `value`.
    pub open spec fn constant_int(value: int) -> SExpr {
        SExpr::ConstantInt(value)
    }

    /// The constant bytes `value`.
    pub open spec fn constant_bytes(value: Seq<u8>) -> SExpr {
        SExpr::ConstantBytes(value)
    }

    /// The current offset.
    pub open spec fn offset() -> SExpr {
        SExpr::Offset
    }

    /// The unary operation `op` on `operand`.
    pub open spec fn un_op(op: UnOp, operand: SExpr) -> SExpr {
        SExpr::UnOp(Box::new(operand), op)
    }

    /// The binary operation `op` on `left` and `right`.
    pub open spec fn bin_op(left: SExpr, op: BinOp, right: SExpr) -> SExpr {
        SExpr::BinOp(Box::new(left), op, Box::new(right))
    }

    /// The value of the variable `var`.
    pub open spec fn variable(var: Seq<char>) -> SExpr {
        SExpr::VariableUse(var)
    }

    /// The field `field` of the value of `field_holder`.
    pub open spec fn field_access(field_holder: SExpr, field: Seq<char>) -> SExpr {
        SExpr::FieldAccess(Box::new(field_holder), field)
    }

    /// `true_branch` where `condition` holds, else `false_branch`.
    pub open spec fn if_else(condition: SExpr, true_branch: SExpr, false_branch: SExpr) -> SExpr {
        SExpr::If(Box::new(condition), Box::new(true_branch), Box::new(false_branch))
    }

    /// The last parsed element.
    pub open spec fn last() -> SExpr {
        SExpr::Last
    }

    /// The enclosing structure.
    pub open spec fn parent() -> SExpr {
        SExpr::Parent
    }

    /// The value of `node` parsed at the current offset.
    pub open spec fn parse_at(node: SNode) -> SExpr {
        SExpr::ParseAt(Box::new(node))
    }
}

impl SNode {
    /// The node `kind`, read after the previous field.
    pub open spec fn of_kind(kind: SNodeKind) -> SNode {
        SNode { kind, offset: None }
    }

    /// Expects the bytes that `expected` evaluates to.
    pub open spec fn fixed_bytes(expected: SExpr) -> SNode {
        SNode::of_kind(SNodeKind::FixedBytes(expected))
    }

    /// Reads as many bytes as `length` evaluates to.
    pub open spec fn fixed_length(length: SExpr) -> SNode {
        SNode::of_kind(SNodeKind::FixedLength(length))
    }

    /// Reads an integer of the given width.
    pub open spec fn integer(bit_width: u32, signed: bool) -> SNode {
        SNode::of_kind(SNodeKind::Integer(bit_width, signed))
    }

    /// Reads the named nodes one after another.
    pub open spec fn structure(nodes: Seq<(Seq<char>, SNode)>) -> SNode {
        SNode::of_kind(SNodeKind::Struct(nodes))
    }

    /// Reads `node` as often as `count` evaluates to.
    pub open spec fn repeat_count(node: SNode, count: SExpr) -> SNode {
        SNode::of_kind(SNodeKind::RepeatCount(Box::new(node), count))
    }

    /// Reads `node` while `condition` holds.
    pub open spec fn repeat_while(node: SNode, condition: SExpr) -> SNode {
        SNode::of_kind(SNodeKind::RepeatWhile(Box::new(node), condition))
    }

    /// Reads the node of the first branch whose value matches `scrutinee`, else `default`.
    pub open spec fn switch(scrutinee: SExpr, branches: Seq<(SExpr, SNode)>, default: SNode) -> SNode {
        SNode::of_kind(SNodeKind::Switch(scrutinee, branches, Box::new(default)))
    }

    /// Reads the node defined under `name`.
    pub open spec fn named(name: Seq<char>) -> SNode {
        SNode::of_kind(SNodeKind::NamedNode(name))
    }

    /// Reads `true_node` where `condition` holds, else `false_node`.
    pub open spec fn parse_if(condition: SExpr, true_node: SNode, false_node: SNode) -> SNode {
        SNode::of_kind(SNodeKind::ParseIf(condition, Box::new(true_node), Box::new(false_node)))
    }

    /// Reads `node` without moving the current offset.
    pub open spec fn elsewhere(node: SNode) -> SNode {
        SNode::of_kind(SNodeKind::Elsewhere(Box::new(node)))
    }

    /// This node, read at the offset that `offset` evaluates to.
    pub open spec fn at(self, offset: SExpr) -> SNode {
        SNode { kind: self.kind, offset: Some(offset) }
    }
}

/// The largest length, count or offset that a node that reads a fixed amount may use.
pub const FIXED_LIMIT: u64 = 0x1_0000;

impl SNode {
    /// The node reads a fixed amount: integers, constant bytes, a constant number of bytes,
    /// structures of such nodes and such nodes repeated a constant number of times, each
    /// possibly at a constant offset. Lengths, counts and offsets are at most `FIXED_LIMIT`. A
    /// field of a structure may also repeat such a node as often as an earlier field, an
    /// unsigned integer of at most 32 bits, says.
    pub open spec fn is_fixed(self) -> bool
        decreases self, 1nat,
    {
        &&& match self.offset {
            None => true,
            Some(SExpr::ConstantInt(c)) => 0 <= c <= FIXED_LIMIT,
            Some(_) => false,
        }
        &&& match self.kind {
            SNodeKind::Integer(bit_width, _) => valid_bit_width(bit_width),
            SNodeKind::FixedBytes(SExpr::ConstantBytes(bytes)) => bytes.len() <= FIXED_LIMIT,
            SNodeKind::FixedLength(SExpr::ConstantInt(n)) => 0 <= n <= FIXED_LIMIT,
            SNodeKind::RepeatCount(inner, SExpr::ConstantInt(n)) => 0 <= n <= FIXED_LIMIT
                && inner.is_fixed(),
            SNodeKind::Struct(fields) => SNode::fixed_fields(fields, 0),
            _ => false,
        }
    }

    /// The nodes of the fields from index `i` on read a fixed amount, or a fixed amount as often
    /// as a field before says.
    pub open spec fn fixed_fields(fields: Seq<(Seq<char>, SNode)>, i: int) -> bool
        decreases fields, 1nat, fields.len() - i,
    {
        if 0 <= i < fields.len() {
            SNode::fixed_field(fields, i) && SNode::fixed_fields(fields, i + 1)
        } else {
            true
        }
    }

    /// The node of the field at index `i` reads a fixed amount, or, without an offset of its
    /// own, repeats a node that reads a fixed amount as often as a field before says.
    pub open spec fn fixed_field(fields: Seq<(Seq<char>, SNode)>, i: int) -> bool
        decreases fields, 0nat, 0nat,
    {
        if 0 <= i < fields.len() {
            ||| fields[i].1.is_fixed()
            ||| fields[i].1.offset is None && match fields[i].1.kind {
                SNodeKind::RepeatCount(inner, SExpr::VariableUse(name)) => inner.is_fixed()
                    && counter_before(fields, i, name),
                _ => false,
            }
        } else {
            false
        }
    }
}

/// The first field before index `i` named `name` is an unsigned integer of at most 32 bits.
pub open spec fn counter_before(fields: Seq<(Seq<char>, SNode)>, i: int, name: Seq<char>) -> bool {
    exists|j: int|
        {
            &&& 0 <= j < i
            &&& (#[trigger] fields[j]).0 == name
            &&& forall|k: int| 0 <= k < j ==> (#[trigger] fields[k]).0 != name
            &&& fields[j].1.kind matches SNodeKind::Integer(bit_width, false)
            &&& bit_width <= 32
        }
}

/// The fields from index `i` on are fixed exactly when each of them is.
pub proof fn lemma_fixed_fields(fields: Seq<(Seq<char>, SNode)>, i: int)
    requires
        0 <= i <= fields.len(),
    ensures
        SNode::fixed_fields(fields, i) <==> forall|j: int|
            i <= j < fields.len() ==> #[trigger] SNode::fixed_field(fields, j),
    decreases fields.len() - i,
{
    if i < fields.len() {
        lemma_fixed_fields(fields, i + 1);
        assert(SNode::fixed_fields(fields, i) == (SNode::fixed_field(fields, i) && SNode::fixed_fields(
            fields,
            i + 1,
        )));
    }
}

/// A constant integer expression's value, where it lies between `0` and `FIXED_LIMIT`.
fn fixed_constant(expr: &Expr) -> (r: bool)
    ensures
        r <==> (expr.deep() matches SExpr::ConstantInt(c) && 0 <= c <= FIXED_LIMIT),
{
    match &expr.kind {
        ExprKind::ConstantInt { value } => match value.to_u64() {
            Some(v) => v <= FIXED_LIMIT,
            None => false,
        },
        _ => false,
    }
}

/// Whether the first field before index `i` named `name` is an unsigned integer of at most 32
/// bits, as `counter_before` says.
fn has_counter_before(nodes: &Vec<(Symbol, Node)>, i: usize, name: &Symbol) -> (r: bool)
    requires
        i <= nodes@.len(),
    ensures
        r == counter_before(deep_fields(nodes@), i as int, name@),
{
    let ghost fields = deep_fields(nodes@);
    let mut j: usize = 0;
    while j < i
        invariant
            j <= i <= nodes@.len(),
            fields == deep_fields(nodes@),
            forall|k: int| 0 <= k < j ==> (#[trigger] fields[k]).0 != name@,
        decreases i - j,
    {
        if nodes[j].0.equals(name) {
            let r = match &nodes[j].1.kind {
                NodeKind::Integer { bit_width, signed } => !*signed && *bit_width <= 32,
                _ => false,
            };
            proof {
                assert(fields[j as int].1 == nodes@[j as int].1.deep());
                if !r {
                    assert forall|m: int|
                        {
                            &&& 0 <= m < i
                            &&& (#[trigger] fields[m]).0 == name@
                            &&& forall|k: int| 0 <= k < m ==> (#[trigger] fields[k]).0 != name@
                        } implies !(fields[m].1.kind matches SNodeKind::Integer(bit_width, false)
                        && bit_width <= 32) by {
                        if m > j {
                            assert(fields[j as int].0 == name@);
                        }
                    }
                }
            }
            return r;
        }
        j = j + 1;
    }
    false
}

impl Node {
    /// Whether the node reads a fixed amount, as `SNode::is_fixed` says.
    pub fn reads_fixed_amount(&self) -> (r: bool)
        ensures
            r == self.deep().is_fixed(),
        decreases self,
    {
        let offset_ok = match &self.offset {
            None => true,
            Some(offset) => fixed_constant(offset),
        };
        if !offset_ok {
            return false;
        }
        match &self.kind {
            NodeKind::Integer { bit_width, .. } => *bit_width > 0 && *bit_width <= 64 && *bit_width % 8 == 0,
            NodeKind::FixedBytes { expected } => match &expected.kind {
                ExprKind::ConstantBytes { value } => {
                    assert(expected.deep() == SExpr::ConstantBytes(value@));
                    assert(self.deep().kind == SNodeKind::FixedBytes(SExpr::ConstantBytes(value@)));
                    value.len() as u64 <= FIXED_LIMIT
                },
                _ => false,
            },
            NodeKind::FixedLength { length } => fixed_constant(length),
            NodeKind::RepeatCount { node, count } => {
                assert(self.deep().kind == SNodeKind::RepeatCount(Box::new(node.deep()), count.deep()));
                fixed_constant(count) && node.reads_fixed_amount()
            },
            NodeKind::Struct { nodes } => {
                let ghost fields = deep_fields(nodes@);
                proof {
                    assert(self.deep().kind->Struct_0 =~= fields);
                    lemma_fixed_fields(fields, 0);
                }
                let mut i: usize = 0;
                while i < nodes.len()
                    invariant
                        i <= nodes@.len(),
                        fields == deep_fields(nodes@),
                        self.kind == (NodeKind::Struct { nodes: *nodes }),
                        self.deep().kind == SNodeKind::Struct(fields),
                        forall|j: int| 0 <= j < i ==> #[trigger] SNode::fixed_field(fields, j),
                        SNode::fixed_fields(fields, 0) <==> forall|j: int|
                            0 <= j < fields.len() ==> #[trigger] SNode::fixed_field(fields, j),
                    decreases nodes@.len() - i,
                {
                    proof {
                        assert(decreases_to!(self => nodes@[i as int].1));
                        assert(fields[i as int].1 == nodes@[i as int].1.deep());
                    }
                    let field = &nodes[i].1;
                    let fixed = field.reads_fixed_amount();
                    let counted = match (&field.offset, &field.kind) {
                        (None, NodeKind::RepeatCount { node: inner, count }) => match &count.kind {
                            ExprKind::VariableUse { var } => {
                                proof {
                                    assert(decreases_to!(self => **inner));
                                    assert(field.deep().kind == SNodeKind::RepeatCount(
                                        Box::new(inner.deep()),
                                        SExpr::VariableUse(var@),
                                    ));
                                }
                                inner.reads_fixed_amount() && has_counter_before(nodes, i, var)
                            },
                            _ => {
                                proof {
                                    assert(field.deep().kind == SNodeKind::RepeatCount(
                                        Box::new(inner.deep()),
                                        count.deep(),
                                    ));
                                }
                                false
                            },
                        },
                        _ => false,
                    };
                    if !fixed && !counted {
                        assert(!SNode::fixed_field(fields, i as int));
                        return false;
                    }
                    assert(SNode::fixed_field(fields, i as int));
                    i = i + 1;
                }
                assert(SNode::fixed_fields(fields, 0));
                true
            },
            _ => false,
        }
    }
}

impl SNode {
    /// The number of bytes that a node reading a fixed amount reads: the width of an integer,
    /// the expected or given number of bytes, the count times the size of a repeated node, or
    /// the sizes of the fields of a structure, one after another.
    pub open spec fn fixed_size(self) -> int
        decreases self, 1nat,
    {
        match self.kind {
            SNodeKind::Integer(bit_width, _) => (bit_width / 8) as int,
            SNodeKind::FixedBytes(SExpr::ConstantBytes(bytes)) => bytes.len() as int,
            SNodeKind::FixedLength(SExpr::ConstantInt(n)) => n,
            SNodeKind::RepeatCount(inner, SExpr::ConstantInt(n)) => n * inner.fixed_size(),
            SNodeKind::Struct(fields) => SNode::fields_size(fields, 0),
            _ => 0,
        }
    }

    /// The sizes of the fields from index `i` on, added up.
    pub open spec fn fields_size(fields: Seq<(Seq<char>, SNode)>, i: int) -> int
        decreases fields, 0nat, fields.len() - i,
    {
        if 0 <= i < fields.len() {
            fields[i].1.fixed_size() + SNode::fields_size(fields, i + 1)
        } else {
            0
        }
    }
}

/// How a field's bytes are read: as an unsigned or a signed integer, as bytes, or otherwise.
pub enum FieldShape {
    /// An unsigned integer.
    Unsigned,
    /// A signed integer.
    Signed,
    /// Expected bytes or a number of bytes.
    Bytes,
    /// A structure, a repetition or another node.
    Other,
}

/// How the node's bytes are read.
pub open spec fn field_shape(node: SNode) -> FieldShape {
    match node.kind {
        SNodeKind::Integer(_, false) => FieldShape::Unsigned,
        SNodeKind::Integer(_, true) => FieldShape::Signed,
        SNodeKind::FixedBytes(_) | SNodeKind::FixedLength(_) => FieldShape::Bytes,
        _ => FieldShape::Other,
    }
}

/// The layout of the fields from index `i` on when the previous field ended at `pos`: each
/// field's name, the byte range it occupies from the start of parsing, and how it is read. A
/// field with a constant offset starts there, any other right after the previous one, and each
/// is as long as its fixed size.
pub open spec fn field_layout(fields: Seq<(Seq<char>, SNode)>, i: int, pos: int) -> Seq<
    (Seq<char>, int, int, FieldShape),
>
    decreases fields.len() - i,
{
    if 0 <= i < fields.len() {
        let start = match fields[i].1.offset {
            Some(SExpr::ConstantInt(c)) => c,
            _ => pos,
        };
        let end = start + fields[i].1.fixed_size();
        seq![(fields[i].0, start, end, field_shape(fields[i].1))] + field_layout(fields, i + 1, end)
    } else {
        Seq::empty()
    }
}

/// A layout has one entry for each field from index `i` on.
pub proof fn lemma_field_layout_len(fields: Seq<(Seq<char>, SNode)>, i: int, pos: int)
    requires
        0 <= i <= fields.len(),
    ensures
        field_layout(fields, i, pos).len() == fields.len() - i,
    decreases fields.len() - i,
{
    if i < fields.len() {
        let start = match fields[i].1.offset {
            Some(SExpr::ConstantInt(c)) => c,
            _ => pos,
        };
        lemma_field_layout_len(fields, i + 1, start + fields[i].1.fixed_size());
    }
}

/// The byte ranges of a layout.
pub open spec fn layout_spans(layout: Seq<(Seq<char>, int, int, FieldShape)>) -> Seq<(int, int)> {
    layout.map_values(|f: (Seq<char>, int, int, FieldShape)| (f.1, f.2))
}

/// No two of the byte ranges overlap.
pub open spec fn spans_disjoint(spans: Seq<(int, int)>) -> bool {
    forall|i: int, j: int|
        0 <= i < j < spans.len() ==> (#[trigger] spans[i]).1 <= (#[trigger] spans[j]).0 || spans[j].1
            <= spans[i].0
}

/// The named nodes as plain values.
pub open spec fn deep_fields(nodes: Seq<(Symbol, Node)>) -> Seq<(Seq<char>, SNode)> {
    Seq::new(nodes.len(), |i: int| (nodes[i].0@, nodes[i].1.deep()))
}

/// The branches as plain values.
pub open spec fn deep_branches(branches: Seq<(Expr, Node)>) -> Seq<(SExpr, SNode)> {
    Seq::new(branches.len(), |i: int| (branches[i].0.deep(), branches[i].1.deep()))
}

/// The integer widths that the parser reads: whole bytes up to 64 bits.
pub open spec fn valid_bit_width(bit_width: u32) -> bool {
    0 < bit_width <= 64 && bit_width % 8 == 0
}

impl Expr {
    /// Every node that the expression parses is well formed.
    pub open spec fn wf(&self) -> bool
        decreases self,
    {
        match &self.kind {
            ExprKind::UnOp { operand, .. } => operand.wf(),
            ExprKind::BinOp { left, right, .. } => left.wf() && right.wf(),
            ExprKind::FieldAccess { field_holder, .. } => field_holder.wf(),
            ExprKind::If { condition, true_branch, false_branch } => condition.wf()
                && true_branch.wf() && false_branch.wf(),
            ExprKind::ParseAt { node } => node.wf(),
            _ => true,
        }
    }

    /// The constant integer `value`.
    pub fn constant_int(value: i64) -> (r: Expr)
        ensures
            r.deep() == SExpr::constant_int(value as int),
            r.wf(),
            r.kind matches ExprKind::ConstantInt { value: v } && v@ == value,
    {
        Expr { kind: ExprKind::ConstantInt { value: Int::from_i64(value) } }
    }

    /// The constant bytes `value`.
    pub fn constant_bytes(value: Vec<u8>) -> (r: Expr)
        ensures
            r.deep() == SExpr::constant_bytes(value@),
            r.wf(),
            r.kind == (ExprKind::ConstantBytes { value }),
    {
        Expr { kind: ExprKind::ConstantBytes { value } }
    }

    /// The current offset.
    pub fn offset() -> (r: Expr)
        ensures
            r.deep() == SExpr::offset(),
            r.wf(),
            r.kind == ExprKind::Offset,
    {
        Expr { kind: ExprKind::Offset }
    }

    /// The unary operation `op` on `operand`.
    pub fn un_op(op: UnOp, operand: Expr) -> (r: Expr)
        requires
            operand.wf(),
        ensures
            r.deep() == SExpr::un_op(op, operand.deep()),
            r.wf(),
            r.kind == (ExprKind::UnOp { operand: Box::new(operand), op }),
    {
        Expr { kind: ExprKind::UnOp { operand: Box::new(operand), op } }
    }

    /// The binary operation `op` on `left` and `right`.
    pub fn bin_op(left: Expr, op: BinOp, right: Expr) -> (r: Expr)
        requires
            left.wf(),
            right.wf(),
        ensures
            r.deep() == SExpr::bin_op(left.deep(), op, right.deep()),
            r.wf(),
            r.kind == (ExprKind::BinOp { left: Box::new(left), right: Box::new(right), op }),
    {
        Expr { kind: ExprKind::BinOp { left: Box::new(left), right: Box::new(right), op } }
    }

    /// The value of the variable `var`.
    pub fn variable(var: Symbol) -> (r: Expr)
        ensures
            r.deep() == SExpr::variable(var@),
            r.wf(),
            r.kind == (ExprKind::VariableUse { var }),
    {
        Expr { kind: ExprKind::VariableUse { var } }
    }

    /// The field `field` of the value of `field_holder`.
    pub fn field_access(field_holder: Expr, field: Symbol) -> (r: Expr)
        requires
            field_holder.wf(),
        ensures
            r.deep() == SExpr::field_access(field_holder.deep(), field@),
            r.wf(),
            r.kind == (ExprKind::FieldAccess { field_holder: Box::new(field_holder), field }),
    {
        Expr { kind: ExprKind::FieldAccess { field_holder: Box::new(field_holder), field } }
    }

    /// `true_branch` where `condition` holds, else `false_branch`.
    pub fn if_else(condition: Expr, true_branch: Expr, false_branch: Expr) -> (r: Expr)
        requires
            condition.wf(),
            true_branch.wf(),
            false_branch.wf(),
        ensures
            r.deep() == SExpr::if_else(condition.deep(), true_branch.deep(), false_branch.deep()),
            r.wf(),
            r.kind == (ExprKind::If {
                condition: Box::new(condition),
                true_branch: Box::new(true_branch),
                false_branch: Box::new(false_branch),
            }),
    {
        Expr {
            kind: ExprKind::If {
                condition: Box::new(condition),
                true_branch: Box::new(true_branch),
                false_branch: Box::new(false_branch),
            },
        }
    }

    /// The last parsed element.
    pub fn last() -> (r: Expr)
        ensures
            r.deep() == SExpr::last(),
            r.wf(),
            r.kind == ExprKind::Last,
    {
        Expr { kind: ExprKind::Last }
    }

    /// The enclosing structure.
    pub fn parent() -> (r: Expr)
        ensures
            r.deep() == SExpr::parent(),
            r.wf(),
            r.kind == ExprKind::Parent,
    {
        Expr { kind: ExprKind::Parent }
    }

    /// The value of `node` parsed at the current offset.
    pub fn parse_at(node: Node) -> (r: Expr)
        requires
            node.wf(),
        ensures
            r.deep() == SExpr::parse_at(node.deep()),
            r.wf(),
            r.kind == (ExprKind::ParseAt { node: Box::new(node) }),
    {
        Expr { kind: ExprKind::ParseAt { node: Box::new(node) } }
    }
}

impl Node {
    /// Every integer that the node parses has a supported width, and every expression in it is
    /// well formed.
    pub open spec fn wf(&self) -> bool
        decreases self,
    {
        &&& match &self.offset {
            Some(offset) => offset.wf(),
            None => true,
        }
        &&& match &self.kind {
            NodeKind::FixedBytes { expected } => expected.wf(),
            NodeKind::FixedLength { length } => length.wf(),
            NodeKind::Integer { bit_width, .. } => valid_bit_width(*bit_width),
            NodeKind::Struct { nodes } => forall|i: int|
                0 <= i < nodes@.len() ==> (#[trigger] nodes@[i]).1.wf(),
            NodeKind::RepeatCount { node, count } => node.wf() && count.wf(),
            NodeKind::RepeatWhile { node, condition } => node.wf() && condition.wf(),
            NodeKind::Switch { scrutinee, branches, default } => {
                &&& scrutinee.wf()
                &&& default.wf()
                &&& forall|i: int|
                    0 <= i < branches@.len() ==> (#[trigger] branches@[i]).0.wf()
                        && branches@[i].1.wf()
            },
            NodeKind::NamedNode { .. } => true,
            NodeKind::ParseIf { condition, true_node, false_node } => condition.wf()
                && true_node.wf() && false_node.wf(),
            NodeKind::Elsewhere { node } => node.wf(),
        }
    }

    /// The node `kind`, parsed after the previous field.
    fn of_kind(kind: NodeKind) -> (r: Node)
        ensures
            r.kind == kind,
            r.offset is None,
    {
        Node { kind, offset: None }
    }

    /// Expects the bytes that `expected` evaluates to.
    pub fn fixed_bytes(expected: Expr) -> (r: Node)
        requires
            expected.wf(),
        ensures
            r.deep() == SNode::fixed_bytes(expected.deep()),
            r.wf(),
            r.kind == (NodeKind::FixedBytes { expected }),
            r.offset is None,
    {
        Node::of_kind(NodeKind::FixedBytes { expected })
    }

    /// Reads as many bytes as `length` evaluates to.
    pub fn fixed_length(length: Expr) -> (r: Node)
        requires
            length.wf(),
        ensures
            r.deep() == SNode::fixed_length(length.deep()),
            r.wf(),
            r.kind == (NodeKind::FixedLength { length }),
            r.offset is None,
    {
        Node::of_kind(NodeKind::FixedLength { length })
    }

    /// Reads an integer of the given width.
    pub fn integer(bit_width: u32, signed: bool) -> (r: Node)
        requires
            valid_bit_width(bit_width),
        ensures
            r.deep() == SNode::integer(bit_width, signed),
            r.wf(),
            r.kind == (NodeKind::Integer { bit_width, signed }),
            r.offset is None,
    {
        Node::of_kind(NodeKind::Integer { bit_width, signed })
    }

    /// Reads the named nodes one after another.
    pub fn structure(nodes: Vec<(Symbol, Node)>) -> (r: Node)
        requires
            forall|i: int| 0 <= i < nodes@.len() ==> (#[trigger] nodes@[i]).1.wf(),
        ensures
            r.deep() == SNode::structure(deep_fields(nodes@)),
            r.wf(),
            r.kind == (NodeKind::Struct { nodes }),
            r.offset is None,
    {
        let ghost fields = nodes@;
        let r = Node::of_kind(NodeKind::Struct { nodes });
        proof {
            assert(r.deep().kind->Struct_0 =~= deep_fields(fields));
        }
        r
    }

    /// Reads `node` as often as `count` evaluates to.
    pub fn repeat_count(node: Node, count: Expr) -> (r: Node)
        requires
            node.wf(),
            count.wf(),
        ensures
            r.deep() == SNode::repeat_count(node.deep(), count.deep()),
            r.wf(),
            r.kind == (NodeKind::RepeatCount { node: Box::new(node), count }),
            r.offset is None,
    {
        Node::of_kind(NodeKind::RepeatCount { node: Box::new(node), count })
    }

    /// Reads `node` while `condition` holds.
    pub fn repeat_while(node: Node, condition: Expr) -> (r: Node)
        requires
            node.wf(),
            condition.wf(),
        ensures
            r.deep() == SNode::repeat_while(node.deep(), condition.deep()),
            r.wf(),
            r.kind == (NodeKind::RepeatWhile { node: Box::new(node), condition }),
            r.offset is None,
    {
        Node::of_kind(NodeKind::RepeatWhile { node: Box::new(node), condition })
    }

    /// Reads the node of the first branch whose value matches `scrutinee`, else `default`.
    pub fn switch(scrutinee: Expr, branches: Vec<(Expr, Node)>, default: Node) -> (r: Node)
        requires
            scrutinee.wf(),
            default.wf(),
            forall|i: int|
                0 <= i < branches@.len() ==> (#[trigger] branches@[i]).0.wf()
                    && branches@[i].1.wf(),
        ensures
            r.deep() == SNode::switch(scrutinee.deep(), deep_branches(branches@), default.deep()),
            r.wf(),
            r.kind == (NodeKind::Switch { scrutinee, branches, default: Box::new(default) }),
            r.offset is None,
    {
        let ghost choices = branches@;
        let r = Node::of_kind(NodeKind::Switch { scrutinee, branches, default: Box::new(default) });
        proof {
            assert(r.deep().kind->Switch_1 =~= deep_branches(choices));
        }
        r
    }

    /// Reads the node defined under `name`.
    pub fn named(name: Symbol) -> (r: Node)
        ensures
            r.deep() == SNode::named(name@),
            r.wf(),
            r.kind == (NodeKind::NamedNode { name }),
            r.offset is None,
    {
        Node::of_kind(NodeKind::NamedNode { name })
    }

    /// Reads `true_node` where `condition` holds, else `false_node`.
    pub fn parse_if(condition: Expr, true_node: Node, false_node: Node) -> (r: Node)
        requires
            condition.wf(),
            true_node.wf(),
            false_node.wf(),
        ensures
            r.deep() == SNode::parse_if(condition.deep(), true_node.deep(), false_node.deep()),
            r.wf(),
            r.kind == (NodeKind::ParseIf {
                condition,
                true_node: Box::new(true_node),
                false_node: Box::new(false_node),
            }),
            r.offset is None,
    {
        Node::of_kind(
            NodeKind::ParseIf {
                condition,
                true_node: Box::new(true_node),
                false_node: Box::new(false_node),
            },
        )
    }

    /// Reads `node` without moving the current offset.
    pub fn elsewhere(node: Node) -> (r: Node)
        requires
            node.wf(),
        ensures
            r.deep() == SNode::elsewhere(node.deep()),
            r.wf(),
            r.kind == (NodeKind::Elsewhere { node: Box::new(node) }),
            r.offset is None,
    {
        Node::of_kind(NodeKind::Elsewhere { node: Box::new(node) })
    }

    /// This node, read at the offset that `offset` evaluates to.
    pub fn at(self, offset: Expr) -> (r: Node)
        requires
            self.wf(),
            offset.wf(),
        ensures
            r.deep() == self.deep().at(offset.deep()),
            r.wf(),
            r.kind == self.kind,
            r.offset == Some(offset),
    {
        Node { kind: self.kind, offset: Some(offset) }
    }
}

} // verus!

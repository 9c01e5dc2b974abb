//! Implements evaluation of the language.

pub mod error;
pub mod value;

use vstd::prelude::*;

use crate::data::{content_at, DataSource};
use crate::parsing::eval::error::ParseErr;
use crate::parsing::eval::value::{
    fields_view, fields_windows, value_view, values_view, values_windows, Provenance, SValue, Value, ValueKind,
};
use crate::parsing::language::ast::{
    counter_before, deep_fields, valid_bit_width, BinOp, Expr, ExprKind, Node, NodeKind, SNode, SNodeKind,
    Symbol, UnOp,
    FIXED_LIMIT,
};
use crate::parsing::language::Int;
use crate::window::{Window, WindowView};

verus! {

/// The byte order in which integers are read.
#[derive(Debug, Clone, Copy, PartialEq, Eq, Structural)]
pub enum Endianness {
    /// The least significant byte comes first.
    Little,
    /// The most significant byte comes first.
    Big,
}

/// Represents an offset into a data stream.
#[derive(Debug, Clone, Copy)]
pub struct Offset {
    /// The offset to the first byte that will need to be read next.
    in_bytes: u64,
}

impl Offset {
    /// The offset to the first byte that will need to be read next.
    pub closed spec fn spec_bytes(&self) -> u64 {
        self.in_bytes
    }

    /// The offset of the given byte.
    pub fn new(value: u64) -> (r: Offset)
        ensures
            r.spec_bytes() == value,
    {
        Offset { in_bytes: value }
    }

    /// Returns the next whole byte to be read.
    pub fn next_whole_byte(&self) -> (r: u64)
        ensures
            r == self.spec_bytes(),
    {
        self.in_bytes
    }

    /// Advances the cursor by `bytes` bytes.
    pub fn advance_bytes(&mut self, bytes: u64)
        requires
            old(self).spec_bytes() + bytes <= u64::MAX,
        ensures
            final(self).spec_bytes() == old(self).spec_bytes() + bytes,
    {
        self.in_bytes = self.in_bytes + bytes;
    }
}

/// The state of a parsing context, as the semantics of the language sees it.
pub struct SContext {
    /// The offset of the next byte to read.
    pub offset: int,
    /// The offset at which parsing started.
    pub start: int,
    /// Whether integers are read most significant byte first.
    pub big_endian: bool,
    /// The values parsed so far, by name.
    pub values: Seq<(Seq<char>, SValue)>,
}

/// How evaluating an expression or parsing a node ends: with a value, because the input ended
/// too early, or not at all (the description does not fit the data or the language, or the
/// work does not end within the allotted steps).
pub enum SOutcome {
    /// A value was computed.
    Value(SValue),
    /// The input ended before all bytes could be read.
    TooShort,
    /// The evaluation does not end with a value or a short input.
    Stuck,
}

/// The context with no values parsed yet, at the same position.
pub open spec fn spec_child(ctx: SContext) -> SContext {
    SContext { values: Seq::empty(), ..ctx }
}

/// The value of the first entry named `name`.
pub open spec fn lookup(fields: Seq<(Seq<char>, SValue)>, name: Seq<char>) -> Option<SValue>
    decreases fields.len(),
{
    if fields.len() == 0 {
        None
    } else if fields[0].0 == name {
        Some(fields[0].1)
    } else {
        lookup(fields.drop_first(), name)
    }
}

/// The number `256^n`.
pub open spec fn pow256(n: nat) -> nat
    decreases n,
{
    if n == 0 {
        1
    } else {
        256 * pow256((n - 1) as nat)
    }
}

/// The unsigned number that the bytes stand for, least significant byte first.
pub open spec fn le_value(bytes: Seq<u8>) -> nat
    decreases bytes.len(),
{
    if bytes.len() == 0 {
        0
    } else {
        (bytes[0] + 256 * le_value(bytes.drop_first())) as nat
    }
}

/// The unsigned number that the bytes stand for, most significant byte first.
pub open spec fn be_value(bytes: Seq<u8>) -> nat
    decreases bytes.len(),
{
    if bytes.len() == 0 {
        0
    } else {
        (be_value(bytes.drop_last()) * 256 + bytes.last()) as nat
    }
}

/// The integer that the bytes stand for in the given byte order, in two's complement where it
/// is signed.
pub open spec fn spec_integer(bytes: Seq<u8>, big_endian: bool, signed: bool) -> int {
    let unsigned: int = if big_endian {
        be_value(bytes) as int
    } else {
        le_value(bytes) as int
    };
    let msb = if big_endian {
        bytes[0]
    } else {
        bytes.last()
    };
    if signed && msb >= 0x80 {
        unsigned - pow256(bytes.len())
    } else {
        unsigned
    }
}

/// The bytes that reading `count` bytes at the offset of the context gives, if the data holds
/// that many there.
pub open spec fn spec_read(ctx: SContext, content: Seq<u8>, count: int) -> Option<Seq<u8>> {
    let bytes = content_at(content, ctx.offset, count);
    if bytes.len() < count {
        None
    } else {
        Some(bytes)
    }
}

/// Reading `count` bytes at the offset of the context, moving the offset past them: the bytes
/// read and the new context, or a short input; stuck where the count or the new offset leaves
/// the machine's range.
pub open spec fn spec_read_bytes(ctx: SContext, content: Seq<u8>, count: int) -> (
    SOutcome,
    SContext,
) {
    if count > usize::MAX {
        (SOutcome::Stuck, ctx)
    } else {
        match spec_read(ctx, content, count) {
            None => (SOutcome::TooShort, ctx),
            Some(bytes) => if ctx.offset + count > u64::MAX {
                (SOutcome::Stuck, ctx)
            } else {
                (SOutcome::Value(SValue::Bytes(bytes)), SContext { offset: ctx.offset + count, ..ctx })
            },
        }
    }
}

/// The result of a binary operation on two values.
pub open spec fn spec_bin_op(op: BinOp, left: SValue, right: SValue) -> SOutcome {
    match op {
        BinOp::Eq => SOutcome::Value(SValue::Boolean(left == right)),
        BinOp::Add => match (left, right) {
            (SValue::Integer(a), SValue::Integer(b)) => SOutcome::Value(SValue::Integer(a + b)),
            _ => SOutcome::Stuck,
        },
        BinOp::Sub => match (left, right) {
            (SValue::Integer(a), SValue::Integer(b)) => SOutcome::Value(SValue::Integer(a - b)),
            _ => SOutcome::Stuck,
        },
        _ => SOutcome::Stuck,
    }
}

/// The value of an expression in a context, with at most `fuel` nested steps.
pub open spec fn spec_eval(expr: Expr, ctx: SContext, content: Seq<u8>, fuel: nat) -> SOutcome
    decreases fuel, 0nat,
{
    if fuel == 0 {
        SOutcome::Stuck
    } else {
        let f = (fuel - 1) as nat;
        match expr.kind {
            ExprKind::ConstantInt { value } => SOutcome::Value(SValue::Integer(value@)),
            ExprKind::ConstantBytes { value } => SOutcome::Value(SValue::Bytes(value@)),
            ExprKind::Offset => SOutcome::Value(SValue::Integer(ctx.offset)),
            ExprKind::UnOp { operand, op } => match spec_eval(*operand, ctx, content, f) {
                SOutcome::Value(SValue::Boolean(b)) => match op {
                    UnOp::Not => SOutcome::Value(SValue::Boolean(!b)),
                },
                SOutcome::Value(_) => SOutcome::Stuck,
                other => other,
            },
            ExprKind::BinOp { left, right, op } => match spec_eval(*left, ctx, content, f) {
                SOutcome::Value(l) => match spec_eval(*right, ctx, content, f) {
                    SOutcome::Value(r) => spec_bin_op(op, l, r),
                    other => other,
                },
                other => other,
            },
            ExprKind::VariableUse { var } => match lookup(ctx.values, var@) {
                Some(v) => SOutcome::Value(v),
                None => SOutcome::Stuck,
            },
            ExprKind::FieldAccess { field_holder, field } => match spec_eval(
                *field_holder,
                ctx,
                content,
                f,
            ) {
                SOutcome::Value(SValue::Struct(fields)) => match lookup(fields, field@) {
                    Some(v) => SOutcome::Value(v),
                    None => SOutcome::Stuck,
                },
                SOutcome::Value(_) => SOutcome::Stuck,
                other => other,
            },
            ExprKind::ParseAt { node } => spec_parse(*node, spec_child(ctx), content, f).0,
            _ => SOutcome::Stuck,
        }
    }
}

/// The context in which the kind of a node is parsed: where the node has an offset that
/// evaluates to a `u64`, parsing continues there, relative to the start.
pub open spec fn spec_seek(node: Node, ctx: SContext, content: Seq<u8>, fuel: nat) -> (
    SOutcome,
    SContext,
)
    decreases fuel, 1nat,
{
    match node.offset {
        None => (SOutcome::Value(SValue::Boolean(true)), ctx),
        Some(offset) => match spec_eval(offset, ctx, content, fuel) {
            SOutcome::Value(SValue::Integer(i)) => if 0 <= i <= u64::MAX {
                if i + ctx.start > u64::MAX {
                    (SOutcome::Stuck, ctx)
                } else {
                    (SOutcome::Value(SValue::Boolean(true)), SContext { offset: i + ctx.start, ..ctx })
                }
            } else {
                (SOutcome::Value(SValue::Boolean(true)), ctx)
            },
            SOutcome::Value(_) => (SOutcome::Stuck, ctx),
            other => (other, ctx),
        },
    }
}

/// The value of a node parsed in a context and the context afterwards, with at most `fuel`
/// nested steps.
pub open spec fn spec_parse(node: Node, ctx: SContext, content: Seq<u8>, fuel: nat) -> (
    SOutcome,
    SContext,
)
    decreases fuel, 2nat,
{
    if fuel == 0 {
        (SOutcome::Stuck, ctx)
    } else {
        let f = (fuel - 1) as nat;
        let (seek, ctx) = spec_seek(node, ctx, content, f);
        if !(seek is Value) {
            (seek, ctx)
        } else {
            match node.kind {
                NodeKind::FixedBytes { expected } => match spec_eval(expected, ctx, content, f) {
                    SOutcome::Value(SValue::Bytes(bytes)) => spec_read_bytes(
                        ctx,
                        content,
                        bytes.len() as int,
                    ),
                    SOutcome::Value(_) => (SOutcome::Stuck, ctx),
                    other => (other, ctx),
                },
                NodeKind::FixedLength { length } => match spec_eval(length, ctx, content, f) {
                    SOutcome::Value(SValue::Integer(n)) => if 0 <= n <= u64::MAX {
                        spec_read_bytes(ctx, content, n)
                    } else {
                        (SOutcome::Stuck, ctx)
                    },
                    SOutcome::Value(_) => (SOutcome::Stuck, ctx),
                    other => (other, ctx),
                },
                NodeKind::Integer { bit_width, signed } => if valid_bit_width(bit_width) {
                    match spec_read_bytes(ctx, content, (bit_width / 8) as int) {
                        (SOutcome::Value(SValue::Bytes(bytes)), after) => (
                            SOutcome::Value(
                                SValue::Integer(spec_integer(bytes, ctx.big_endian, signed)),
                            ),
                            after,
                        ),
                        other => other,
                    }
                } else {
                    (SOutcome::Stuck, ctx)
                },
                NodeKind::Struct { nodes } => {
                    let (result, child) = spec_fields(nodes@, 0, spec_child(ctx), content, f);
                    (result, SContext { offset: child.offset, ..ctx })
                },
                NodeKind::RepeatCount { node: inner, count } => match spec_eval(
                    count,
                    ctx,
                    content,
                    f,
                ) {
                    SOutcome::Value(SValue::Integer(n)) => if 0 <= n <= usize::MAX {
                        spec_repeat_count(*inner, n as nat, ctx, content, f, Seq::empty())
                    } else {
                        (SOutcome::Value(SValue::Array(Seq::empty())), ctx)
                    },
                    SOutcome::Value(_) => (SOutcome::Stuck, ctx),
                    other => (other, ctx),
                },
                NodeKind::RepeatWhile { node: inner, condition } => spec_repeat_while(
                    *inner,
                    condition,
                    ctx,
                    content,
                    f,
                    Seq::empty(),
                ),
                _ => (SOutcome::Stuck, ctx),
            }
        }
    }
}

/// Parses the named nodes from index `i` on into the child context, one after another.
pub open spec fn spec_fields(
    nodes: Seq<(Symbol, Node)>,
    i: int,
    child: SContext,
    content: Seq<u8>,
    fuel: nat,
) -> (SOutcome, SContext)
    decreases fuel, 3nat,
{
    if i < 0 || i >= nodes.len() {
        (SOutcome::Value(SValue::Struct(child.values)), child)
    } else if fuel == 0 {
        (SOutcome::Stuck, child)
    } else {
        let f = (fuel - 1) as nat;
        match spec_parse(nodes[i].1, child, content, f) {
            (SOutcome::Value(v), after) => spec_fields(
                nodes,
                i + 1,
                SContext { values: after.values.push((nodes[i].0@, v)), ..after },
                content,
                f,
            ),
            other => other,
        }
    }
}

/// Parses the node `n` more times, collecting the values after those in `done`.
pub open spec fn spec_repeat_count(
    node: Node,
    n: nat,
    ctx: SContext,
    content: Seq<u8>,
    fuel: nat,
    done: Seq<SValue>,
) -> (SOutcome, SContext)
    decreases fuel, 3nat,
{
    if n == 0 {
        (SOutcome::Value(SValue::Array(done)), ctx)
    } else if fuel == 0 {
        (SOutcome::Stuck, ctx)
    } else {
        let f = (fuel - 1) as nat;
        match spec_parse(node, ctx, content, f) {
            (SOutcome::Value(v), after) => spec_repeat_count(
                node,
                (n - 1) as nat,
                after,
                content,
                f,
                done.push(v),
            ),
            other => other,
        }
    }
}

/// Parses the node while the condition holds, collecting the values after those in `done`.
pub open spec fn spec_repeat_while(
    node: Node,
    condition: Expr,
    ctx: SContext,
    content: Seq<u8>,
    fuel: nat,
    done: Seq<SValue>,
) -> (SOutcome, SContext)
    decreases fuel, 3nat,
{
    if fuel == 0 {
        (SOutcome::Stuck, ctx)
    } else {
        let f = (fuel - 1) as nat;
        match spec_eval(condition, ctx, content, f) {
            SOutcome::Value(SValue::Boolean(true)) => match spec_parse(node, ctx, content, f) {
                (SOutcome::Value(v), after) => spec_repeat_while(
                    node,
                    condition,
                    after,
                    content,
                    f,
                    done.push(v),
                ),
                other => other,
            },
            SOutcome::Value(SValue::Boolean(false)) => (SOutcome::Value(SValue::Array(done)), ctx),
            SOutcome::Value(_) => (SOutcome::Stuck, ctx),
            other => (other, ctx),
        }
    }
}

/// The expression parses a node, and so reads from the data.
pub open spec fn reads_data(expr: Expr) -> bool
    decreases expr,
{
    match expr.kind {
        ExprKind::UnOp { operand, .. } => reads_data(*operand),
        ExprKind::BinOp { left, right, .. } => reads_data(*left) || reads_data(*right),
        ExprKind::FieldAccess { field_holder, .. } => reads_data(*field_holder),
        ExprKind::If { condition, true_branch, false_branch } => reads_data(*condition) || reads_data(
            *true_branch,
        ) || reads_data(*false_branch),
        ExprKind::ParseAt { .. } => true,
        _ => false,
    }
}

/// The node is read at the current offset without an offset of its own, straight from the data
/// (an integer, expected bytes or a number of bytes) or in a context of its own (a structure).
pub open spec fn reads_in_place(node: Node) -> bool {
    &&& node.offset is None
    &&& (node.kind is Integer || node.kind is FixedBytes || node.kind is FixedLength
        || node.kind is Struct)
}

/// Where the parts of a value parsed from a node were read from, at every depth: a value read
/// directly from the data comes from one window as long as what was read, and a structure or
/// an array from the windows of its parts, one after another, each of which was parsed from the
/// node of that part.
pub open spec fn provenance_shape(node: Node, value: Value) -> bool
    decreases node,
{
    let windows = value.provenance.spec_windows();
    match node.kind {
        NodeKind::Integer { bit_width, .. } => windows.len() == 1 && windows[0].end - windows[0].start
            == bit_width / 8,
        NodeKind::FixedBytes { .. } | NodeKind::FixedLength { .. } => {
            &&& value.kind is Bytes
            &&& windows.len() == 1
            &&& windows[0].end - windows[0].start == value.kind->Bytes_0@.len()
        },
        NodeKind::Struct { nodes } => {
            &&& value.kind is Struct
            &&& value.kind->Struct_0@.len() == nodes@.len()
            &&& windows == fields_windows(value.kind->Struct_0@)
            &&& forall|i: int|
                0 <= i < nodes@.len() ==> (#[trigger] value.kind->Struct_0@[i]).0@ == nodes@[i].0@
                    && provenance_shape(nodes@[i].1, value.kind->Struct_0@[i].1)
        },
        NodeKind::RepeatCount { node: inner, .. } | NodeKind::RepeatWhile { node: inner, .. } => {
            &&& value.kind is Array
            &&& windows == values_windows(value.kind->Array_0@)
            &&& forall|i: int|
                0 <= i < value.kind->Array_0@.len() ==> provenance_shape(
                    *inner,
                    #[trigger] value.kind->Array_0@[i],
                )
        },
        _ => true,
    }
}

/// Where a value parsed from a node, with the offset `end` after it, was read from: a value
/// read directly from the data comes from the window that ends at `end`, and a structure or an
/// array from the windows of its parts, one after another.
pub open spec fn parsed_provenance(node: Node, value: Value, end: int) -> bool {
    match node.kind {
        NodeKind::Integer { bit_width, .. } => value.provenance.spec_windows() == seq![
            WindowView { start: end - bit_width / 8, end },
        ],
        NodeKind::FixedBytes { .. } | NodeKind::FixedLength { .. } => value.kind is Bytes
            && value.provenance.spec_windows() == seq![
            WindowView { start: end - value.kind->Bytes_0@.len(), end },
        ],
        NodeKind::Struct { .. } => value.kind is Struct && value.provenance.spec_windows()
            == fields_windows(value.kind->Struct_0@),
        NodeKind::RepeatCount { .. } | NodeKind::RepeatWhile { .. } => value.kind is Array
            && value.provenance.spec_windows() == values_windows(value.kind->Array_0@),
        _ => true,
    }
}


/// The result of evaluating an expression in a context, with enough steps for the evaluation to
/// end, if there are enough.
pub open spec fn spec_eval_result(expr: Expr, ctx: SContext, content: Seq<u8>) -> SOutcome {
    spec_eval(expr, ctx, content, choose|fuel: nat| !(spec_eval(expr, ctx, content, fuel) is Stuck))
}

/// The value and the context after parsing a node in a context, with enough steps for the
/// parsing to end, if there are enough.
pub open spec fn spec_parse_result(node: Node, ctx: SContext, content: Seq<u8>) -> (
    SOutcome,
    SContext,
) {
    spec_parse(node, ctx, content, choose|fuel: nat| !(spec_parse(node, ctx, content, fuel).0 is Stuck))
}

/// More steps do not change an evaluation that ends within fewer steps.
pub proof fn lemma_eval_fuel(expr: Expr, ctx: SContext, content: Seq<u8>, f1: nat, f2: nat)
    requires
        f1 <= f2,
        !(spec_eval(expr, ctx, content, f1) is Stuck),
    ensures
        spec_eval(expr, ctx, content, f2) == spec_eval(expr, ctx, content, f1),
    decreases f1, 0nat,
{
    let g1 = (f1 - 1) as nat;
    let g2 = (f2 - 1) as nat;
    match expr.kind {
        ExprKind::UnOp { operand, .. } => {
            lemma_eval_fuel(*operand, ctx, content, g1, g2);
        },
        ExprKind::BinOp { left, right, .. } => {
            lemma_eval_fuel(*left, ctx, content, g1, g2);
            if spec_eval(*left, ctx, content, g1) is Value {
                lemma_eval_fuel(*right, ctx, content, g1, g2);
            }
        },
        ExprKind::FieldAccess { field_holder, .. } => {
            lemma_eval_fuel(*field_holder, ctx, content, g1, g2);
        },
        ExprKind::ParseAt { node } => {
            lemma_parse_fuel(*node, spec_child(ctx), content, g1, g2);
        },
        _ => {},
    }
}

/// More steps do not change a seek that ends within fewer steps.
pub proof fn lemma_seek_fuel(node: Node, ctx: SContext, content: Seq<u8>, f1: nat, f2: nat)
    requires
        f1 <= f2,
        !(spec_seek(node, ctx, content, f1).0 is Stuck),
    ensures
        spec_seek(node, ctx, content, f2) == spec_seek(node, ctx, content, f1),
    decreases f1, 1nat,
{
    match node.offset {
        Some(offset) => lemma_eval_fuel(offset, ctx, content, f1, f2),
        None => {},
    }
}

/// More steps do not change parsing that ends within fewer steps.
pub proof fn lemma_parse_fuel(node: Node, ctx: SContext, content: Seq<u8>, f1: nat, f2: nat)
    requires
        f1 <= f2,
        !(spec_parse(node, ctx, content, f1).0 is Stuck),
    ensures
        spec_parse(node, ctx, content, f2) == spec_parse(node, ctx, content, f1),
    decreases f1, 2nat,
{
    let g1 = (f1 - 1) as nat;
    let g2 = (f2 - 1) as nat;
    lemma_seek_fuel(node, ctx, content, g1, g2);
    let (seek, sctx) = spec_seek(node, ctx, content, g1);
    if seek is Value {
        match node.kind {
            NodeKind::FixedBytes { expected } => lemma_eval_fuel(expected, sctx, content, g1, g2),
            NodeKind::FixedLength { length } => lemma_eval_fuel(length, sctx, content, g1, g2),
            NodeKind::Struct { nodes } => lemma_fields_fuel(
                nodes@,
                0,
                spec_child(sctx),
                content,
                g1,
                g2,
            ),
            NodeKind::RepeatCount { node: inner, count } => {
                lemma_eval_fuel(count, sctx, content, g1, g2);
                if let SOutcome::Value(SValue::Integer(n)) = spec_eval(count, sctx, content, g1) {
                    if 0 <= n <= usize::MAX {
                        lemma_repeat_count_fuel(*inner, n as nat, sctx, content, g1, g2, Seq::empty());
                    }
                }
            },
            NodeKind::RepeatWhile { node: inner, condition } => lemma_repeat_while_fuel(
                *inner,
                condition,
                sctx,
                content,
                g1,
                g2,
                Seq::empty(),
            ),
            _ => {},
        }
    }
}

/// More steps do not change parsing fields that ends within fewer steps.
pub proof fn lemma_fields_fuel(
    nodes: Seq<(Symbol, Node)>,
    i: int,
    child: SContext,
    content: Seq<u8>,
    f1: nat,
    f2: nat,
)
    requires
        f1 <= f2,
        !(spec_fields(nodes, i, child, content, f1).0 is Stuck),
    ensures
        spec_fields(nodes, i, child, content, f2) == spec_fields(nodes, i, child, content, f1),
    decreases f1, 3nat,
{
    if 0 <= i < nodes.len() {
        let g1 = (f1 - 1) as nat;
        let g2 = (f2 - 1) as nat;
        lemma_parse_fuel(nodes[i].1, child, content, g1, g2);
        if let (SOutcome::Value(v), after) = spec_parse(nodes[i].1, child, content, g1) {
            lemma_fields_fuel(
                nodes,
                i + 1,
                SContext { values: after.values.push((nodes[i].0@, v)), ..after },
                content,
                g1,
                g2,
            );
        }
    }
}

/// More steps do not change repeated parsing that ends within fewer steps.
pub proof fn lemma_repeat_count_fuel(
    node: Node,
    n: nat,
    ctx: SContext,
    content: Seq<u8>,
    f1: nat,
    f2: nat,
    done: Seq<SValue>,
)
    requires
        f1 <= f2,
        !(spec_repeat_count(node, n, ctx, content, f1, done).0 is Stuck),
    ensures
        spec_repeat_count(node, n, ctx, content, f2, done) == spec_repeat_count(
            node,
            n,
            ctx,
            content,
            f1,
            done,
        ),
    decreases f1, 3nat,
{
    if n > 0 {
        let g1 = (f1 - 1) as nat;
        let g2 = (f2 - 1) as nat;
        lemma_parse_fuel(node, ctx, content, g1, g2);
        if let (SOutcome::Value(v), after) = spec_parse(node, ctx, content, g1) {
            lemma_repeat_count_fuel(node, (n - 1) as nat, after, content, g1, g2, done.push(v));
        }
    }
}

/// More steps do not change parsing while a condition holds that ends within fewer steps.
pub proof fn lemma_repeat_while_fuel(
    node: Node,
    condition: Expr,
    ctx: SContext,
    content: Seq<u8>,
    f1: nat,
    f2: nat,
    done: Seq<SValue>,
)
    requires
        f1 <= f2,
        !(spec_repeat_while(node, condition, ctx, content, f1, done).0 is Stuck),
    ensures
        spec_repeat_while(node, condition, ctx, content, f2, done) == spec_repeat_while(
            node,
            condition,
            ctx,
            content,
            f1,
            done,
        ),
    decreases f1, 3nat,
{
    let g1 = (f1 - 1) as nat;
    let g2 = (f2 - 1) as nat;
    lemma_eval_fuel(condition, ctx, content, g1, g2);
    if spec_eval(condition, ctx, content, g1) == SOutcome::Value(SValue::Boolean(true)) {
        lemma_parse_fuel(node, ctx, content, g1, g2);
        if let (SOutcome::Value(v), after) = spec_parse(node, ctx, content, g1) {
            lemma_repeat_while_fuel(node, condition, after, content, g1, g2, done.push(v));
        }
    }
}

/// Parsing that ends within some number of steps has the result that `spec_parse_result`
/// names.
pub proof fn lemma_parse_result(node: Node, ctx: SContext, content: Seq<u8>, fuel: nat)
    requires
        !(spec_parse(node, ctx, content, fuel).0 is Stuck),
    ensures
        spec_parse_result(node, ctx, content) == spec_parse(node, ctx, content, fuel),
{
    let c = choose|f: nat| !(spec_parse(node, ctx, content, f).0 is Stuck);
    if c <= fuel {
        lemma_parse_fuel(node, ctx, content, c, fuel);
    } else {
        lemma_parse_fuel(node, ctx, content, fuel, c);
    }
}

/// An evaluation that ends within some number of steps has the result that
/// `spec_eval_result` names.
pub proof fn lemma_eval_result(expr: Expr, ctx: SContext, content: Seq<u8>, fuel: nat)
    requires
        !(spec_eval(expr, ctx, content, fuel) is Stuck),
    ensures
        spec_eval_result(expr, ctx, content) == spec_eval(expr, ctx, content, fuel),
{
    let c = choose|f: nat| !(spec_eval(expr, ctx, content, f) is Stuck);
    if c <= fuel {
        lemma_eval_fuel(expr, ctx, content, c, fuel);
    } else {
        lemma_eval_fuel(expr, ctx, content, fuel, c);
    }
}

/// A context and data in which nodes that read a fixed amount do not get stuck: the offset is
/// not negative, the start leaves room for constant offsets and the data fits the machine's
/// offsets.
pub open spec fn fixed_ready(ctx: SContext, content: Seq<u8>) -> bool {
    &&& 0 <= ctx.offset <= u64::MAX
    &&& 0 <= ctx.start <= u64::MAX - FIXED_LIMIT
    &&& content.len() <= u64::MAX
}

/// The context `after` is as ready as `ctx`, with the same start and values.
pub open spec fn fixed_after(ctx: SContext, after: SContext, content: Seq<u8>) -> bool {
    &&& fixed_ready(after, content)
    &&& after.start == ctx.start
    &&& after.values == ctx.values
}

/// Where the node is an unsigned integer of at most 32 bits, the value is an integer below
/// `2^32`.
pub open spec fn small_counter(node: SNode, value: SValue) -> bool {
    match node.kind {
        SNodeKind::Integer(bit_width, false) => bit_width <= 32 ==> match value {
            SValue::Integer(n) => 0 <= n < 0x1_0000_0000,
            _ => false,
        },
        _ => true,
    }
}

/// The values parsed for the first fields carry their names, and each field that may count
/// a later one holds a small integer.
pub open spec fn counters_ready(fields: Seq<(Seq<char>, SNode)>, values: Seq<(Seq<char>, SValue)>) -> bool {
    &&& values.len() <= fields.len()
    &&& forall|k: int| 0 <= k < values.len() ==> (#[trigger] values[k]).0 == fields[k].0
    &&& forall|k: int| 0 <= k < values.len() ==> small_counter(fields[k].1, #[trigger] values[k].1)
}

/// Reading at most `FIXED_LIMIT` bytes in a ready context does not get stuck, and leaves the
/// context ready.
proof fn lemma_read_ready(ctx: SContext, content: Seq<u8>, count: int)
    requires
        fixed_ready(ctx, content),
        0 <= count <= FIXED_LIMIT,
    ensures
        !(spec_read_bytes(ctx, content, count).0 is Stuck),
        spec_read_bytes(ctx, content, count).0 is Value ==> fixed_after(
            ctx,
            spec_read_bytes(ctx, content, count).1,
            content,
        ),
        spec_read_bytes(ctx, content, count).0 matches SOutcome::Value(SValue::Bytes(bytes))
            ==> bytes.len() == count,
{
    let bytes = content_at(content, ctx.offset, count);
    if bytes.len() >= count && count > 0 {
        assert(ctx.offset < content.len());
        assert(ctx.offset + count <= content.len());
    }
}

/// Seeking for a node that reads a fixed amount, with at least one step, moves at most to a
/// constant offset past the start and leaves the context ready.
proof fn lemma_fixed_seek(node: Node, ctx: SContext, content: Seq<u8>, f: nat)
    requires
        node.deep().is_fixed(),
        fixed_ready(ctx, content),
        f >= 1,
    ensures
        spec_seek(node, ctx, content, f).0 is Value,
        fixed_ready(spec_seek(node, ctx, content, f).1, content),
        spec_seek(node, ctx, content, f).1.start == ctx.start,
        spec_seek(node, ctx, content, f).1.values == ctx.values,
        spec_seek(node, ctx, content, f).1.big_endian == ctx.big_endian,
{
    match node.offset {
        Some(offset) => {
            assert(node.deep().offset == Some(offset.deep()));
            assert(offset.kind is ConstantInt);
        },
        None => {},
    }
}

/// Parsing a node that reads a fixed amount ends within the returned number of steps, and
/// where it gives a value, the context afterwards is as ready.
proof fn lemma_fixed_node(node: Node, ctx: SContext, content: Seq<u8>) -> (fuel: nat)
    requires
        node.deep().is_fixed(),
        fixed_ready(ctx, content),
    ensures
        !(spec_parse(node, ctx, content, fuel).0 is Stuck),
        spec_parse(node, ctx, content, fuel).0 is Value ==> fixed_after(
            ctx,
            spec_parse(node, ctx, content, fuel).1,
            content,
        ),
        spec_parse(node, ctx, content, fuel).0 matches SOutcome::Value(v) ==> small_counter(
            node.deep(),
            v,
        ),
    decreases node, 0nat,
{
    lemma_fixed_seek(node, ctx, content, 1);
    let seeked = spec_seek(node, ctx, content, 1).1;
    match node.kind {
        NodeKind::RepeatCount { node: inner, count } => {
            assert(node.deep().kind == SNodeKind::RepeatCount(Box::new(inner.deep()), count.deep()));
            assert(count.kind is ConstantInt);
            let n = spec_eval(count, seeked, content, 1)->Value_0->Integer_0;
            let g = lemma_fixed_repeat(*inner, n as nat, seeked, content, Seq::empty());
            let fuel = g + 2;
            lemma_seek_fuel(node, ctx, content, 1, (fuel - 1) as nat);
            lemma_eval_fuel(count, seeked, content, 1, (fuel - 1) as nat);
            lemma_repeat_count_fuel(*inner, n as nat, seeked, content, g, (fuel - 1) as nat, Seq::empty());
            fuel
        },
        NodeKind::Struct { nodes } => {
            assert(node.deep().kind->Struct_0 =~= deep_fields(nodes@));
            assert(counters_ready(deep_fields(nodes@), spec_child(seeked).values));
            let g = lemma_fixed_fields(nodes@, 0, spec_child(seeked), content);
            let fuel = g + 2;
            lemma_seek_fuel(node, ctx, content, 1, (fuel - 1) as nat);
            lemma_fields_fuel(nodes@, 0, spec_child(seeked), content, g, (fuel - 1) as nat);
            fuel
        },
        NodeKind::FixedBytes { expected } => {
            assert(node.deep().kind == SNodeKind::FixedBytes(expected.deep()));
            assert(expected.kind is ConstantBytes);
            lemma_read_ready(seeked, content, expected.deep()->ConstantBytes_0.len() as int);
            2
        },
        NodeKind::FixedLength { length } => {
            assert(node.deep().kind == SNodeKind::FixedLength(length.deep()));
            assert(length.kind is ConstantInt);
            lemma_read_ready(seeked, content, length.deep()->ConstantInt_0);
            2
        },
        NodeKind::Integer { bit_width, .. } => {
            lemma_read_ready(seeked, content, (bit_width / 8) as int);
            if let SOutcome::Value(SValue::Bytes(bytes)) = spec_read_bytes(
                seeked,
                content,
                (bit_width / 8) as int,
            ).0 {
                lemma_value_bound(bytes);
                lemma_pow256_values();
            }
            2
        },
        _ => {
            assert(false);
            2
        },
    }
}

/// Parsing the field at index `i`, which repeats a node that reads a fixed amount as often as
/// a field before says, ends within the returned number of steps.
proof fn lemma_counted_field(nodes: Seq<(Symbol, Node)>, i: int, child: SContext, content: Seq<u8>) -> (fuel: nat)
    requires
        0 <= i < nodes.len(),
        !deep_fields(nodes)[i].1.is_fixed(),
        SNode::fixed_field(deep_fields(nodes), i),
        fixed_ready(child, content),
        child.values.len() == i,
        counters_ready(deep_fields(nodes), child.values),
    ensures
        !(spec_parse(nodes[i].1, child, content, fuel).0 is Stuck),
        spec_parse(nodes[i].1, child, content, fuel).0 is Value ==> fixed_after(
            child,
            spec_parse(nodes[i].1, child, content, fuel).1,
            content,
        ),
        spec_parse(nodes[i].1, child, content, fuel).0 matches SOutcome::Value(v) ==> small_counter(
            nodes[i].1.deep(),
            v,
        ),
    decreases nodes, nodes.len() - i - 1,
{
    let fields = deep_fields(nodes);
    let node = nodes[i].1;
    assert(fields[i].1 == node.deep());
    match node.kind {
        NodeKind::RepeatCount { node: inner, count } => {
            assert(node.deep().kind == SNodeKind::RepeatCount(Box::new(inner.deep()), count.deep()));
            match count.kind {
                ExprKind::VariableUse { var } => {
                    let name = var@;
                    assert(counter_before(fields, i, name));
                    let j = choose|j: int|
                        {
                            &&& 0 <= j < i
                            &&& (#[trigger] fields[j]).0 == name
                            &&& forall|k: int| 0 <= k < j ==> (#[trigger] fields[k]).0 != name
                            &&& fields[j].1.kind matches SNodeKind::Integer(bit_width, false)
                            &&& bit_width <= 32
                        };
                    assert forall|k: int| 0 <= k < j implies (#[trigger] child.values[k]).0 != name by {
                        assert(fields[k].0 != name);
                    }
                    lemma_lookup(child.values, name, j);
                    assert(small_counter(fields[j].1, child.values[j].1));
                    let n = child.values[j].1->Integer_0;
                    assert(spec_eval(count, child, content, 1) == SOutcome::Value(SValue::Integer(n)));
                    let g = lemma_fixed_repeat(*inner, n as nat, child, content, Seq::empty());
                    let fuel = g + 2;
                    lemma_eval_fuel(count, child, content, 1, (fuel - 1) as nat);
                    lemma_repeat_count_fuel(*inner, n as nat, child, content, g, (fuel - 1) as nat, Seq::empty());
                    fuel
                },
                _ => 0,
            }
        },
        _ => 0,
    }
}

/// Parsing fields from index `i` on, each of which reads a fixed amount or is counted by a field
/// before, ends within the returned number of steps.
proof fn lemma_fixed_fields(nodes: Seq<(Symbol, Node)>, i: int, child: SContext, content: Seq<u8>) -> (fuel: nat)
    requires
        0 <= i,
        SNode::fixed_fields(deep_fields(nodes), i),
        fixed_ready(child, content),
        i <= nodes.len() ==> child.values.len() == i,
        counters_ready(deep_fields(nodes), child.values),
    ensures
        !(spec_fields(nodes, i, child, content, fuel).0 is Stuck),
        spec_fields(nodes, i, child, content, fuel).0 is Value ==> fixed_ready(
            spec_fields(nodes, i, child, content, fuel).1,
            content,
        ) && spec_fields(nodes, i, child, content, fuel).1.start == child.start,
    decreases nodes, nodes.len() - i,
{
    if i >= nodes.len() {
        0
    } else {
        let fields = deep_fields(nodes);
        assert(fields[i].1 == nodes[i].1.deep());
        let g = if fields[i].1.is_fixed() {
            lemma_fixed_node(nodes[i].1, child, content)
        } else {
            lemma_counted_field(nodes, i, child, content)
        };
        match spec_parse(nodes[i].1, child, content, g) {
            (SOutcome::Value(v), after) => {
                let next = SContext { values: after.values.push((nodes[i].0@, v)), ..after };
                assert(counters_ready(fields, next.values)) by {
                    assert forall|k: int| 0 <= k < next.values.len() implies small_counter(
                        fields[k].1,
                        #[trigger] next.values[k].1,
                    ) by {
                        if k < i {
                            assert(next.values[k] == child.values[k]);
                        }
                    }
                    assert forall|k: int| 0 <= k < next.values.len() implies (
                    #[trigger] next.values[k]).0 == fields[k].0 by {
                        if k < i {
                            assert(next.values[k] == child.values[k]);
                        }
                    }
                }
                let h = lemma_fixed_fields(nodes, i + 1, next, content);
                let fuel = if g <= h { h + 1 } else { g + 1 };
                lemma_parse_fuel(nodes[i].1, child, content, g, (fuel - 1) as nat);
                lemma_fields_fuel(nodes, i + 1, next, content, h, (fuel - 1) as nat);
                fuel
            },
            _ => g + 1,
        }
    }
}

/// Parsing a node that reads a fixed amount `n` more times ends within the returned number of
/// steps.
proof fn lemma_fixed_repeat(
    node: Node,
    n: nat,
    ctx: SContext,
    content: Seq<u8>,
    done: Seq<SValue>,
) -> (fuel: nat)
    requires
        node.deep().is_fixed(),
        fixed_ready(ctx, content),
    ensures
        !(spec_repeat_count(node, n, ctx, content, fuel, done).0 is Stuck),
        spec_repeat_count(node, n, ctx, content, fuel, done).0 is Value ==> fixed_after(
            ctx,
            spec_repeat_count(node, n, ctx, content, fuel, done).1,
            content,
        ),
    decreases node, n + 1,
{
    if n == 0 {
        0
    } else {
        let g = lemma_fixed_node(node, ctx, content);
        match spec_parse(node, ctx, content, g) {
            (SOutcome::Value(v), after) => {
                let h = lemma_fixed_repeat(node, (n - 1) as nat, after, content, done.push(v));
                let fuel = if g <= h { h + 1 } else { g + 1 };
                lemma_parse_fuel(node, ctx, content, g, (fuel - 1) as nat);
                lemma_repeat_count_fuel(node, (n - 1) as nat, after, content, h, (fuel - 1) as nat, done.push(v));
                fuel
            },
            _ => g + 1,
        }
    }
}

/// Parsing a node that reads a fixed amount ends, with a value or a short input, in every
/// context that leaves room for its offsets.
pub proof fn lemma_fixed_parse_ends(node: Node, ctx: SContext, content: Seq<u8>)
    requires
        node.deep().is_fixed(),
        fixed_ready(ctx, content),
    ensures
        exists|fuel: nat| !(spec_parse(node, ctx, content, fuel).0 is Stuck),
{
    let fuel = lemma_fixed_node(node, ctx, content);
    assert(!(spec_parse(node, ctx, content, fuel).0 is Stuck));
}

/// The entries of named values stand for the values of the entries.
proof fn lemma_fields_view(fields: Seq<(Symbol, Value)>)
    ensures
        fields_view(fields).len() == fields.len(),
        forall|i: int|
            0 <= i < fields.len() ==> #[trigger] fields_view(fields)[i] == (
                fields[i].0@,
                value_view(fields[i].1),
            ),
    decreases fields.len(),
{
    if fields.len() > 0 {
        lemma_fields_view(fields.drop_last());
        assert forall|i: int| 0 <= i < fields.len() implies #[trigger] fields_view(fields)[i] == (
            fields[i].0@,
            value_view(fields[i].1),
        ) by {
            if i < fields.len() - 1 {
                assert(fields.drop_last()[i] == fields[i]);
            }
        }
    }
}

/// The entries of values stand for the values.
proof fn lemma_values_view(values: Seq<Value>)
    ensures
        values_view(values).len() == values.len(),
        forall|i: int|
            0 <= i < values.len() ==> #[trigger] values_view(values)[i] == value_view(values[i]),
    decreases values.len(),
{
    if values.len() > 0 {
        lemma_values_view(values.drop_last());
        assert forall|i: int| 0 <= i < values.len() implies #[trigger] values_view(values)[i]
            == value_view(values[i]) by {
            if i < values.len() - 1 {
                assert(values.drop_last()[i] == values[i]);
            }
        }
    }
}

/// The first entry named `name` is the one at `i` if none before it has the name.
proof fn lemma_lookup(fields: Seq<(Seq<char>, SValue)>, name: Seq<char>, i: int)
    requires
        0 <= i <= fields.len(),
        forall|j: int| 0 <= j < i ==> (#[trigger] fields[j]).0 != name,
    ensures
        i < fields.len() && fields[i].0 == name ==> lookup(fields, name) == Some(fields[i].1),
        i == fields.len() ==> lookup(fields, name) is None,
    decreases i,
{
    if i > 0 {
        let rest = fields.drop_first();
        assert forall|j: int| 0 <= j < i - 1 implies (#[trigger] rest[j]).0 != name by {
            assert(rest[j] == fields[j + 1]);
        }
        lemma_lookup(rest, name, i - 1);
        if i < fields.len() {
            assert(rest[i - 1] == fields[i]);
        }
    } else if fields.len() > 0 {
    }
}

/// Copies a value.
pub fn copy_value(value: &Value) -> (r: Value)
    ensures
        value_view(r) == value_view(*value),
    decreases value,
{
    let kind = match &value.kind {
        ValueKind::Integer(i) => ValueKind::Integer(i.clone()),
        ValueKind::Bytes(b) => {
            let c = b.clone();
            proof {
                assert(c@ =~= b@);
            }
            ValueKind::Bytes(c)
        },
        ValueKind::Boolean(b) => ValueKind::Boolean(*b),
        ValueKind::Struct(fields) => {
            let mut out: Vec<(Symbol, Value)> = Vec::new();
            let mut i: usize = 0;
            while i < fields.len()
                invariant
                    i <= fields@.len(),
                    fields_view(out@) == fields_view(fields@.subrange(0, i as int)),
                    value.kind is Struct,
                    value.kind->Struct_0 == *fields,
                decreases fields@.len() - i,
            {
                let (name, v) = &fields[i];
                proof {
                    assert(decreases_to!(*value => value.kind));
                    assert(value.kind is Struct);
                    assert(value.kind->Struct_0 == *fields);
                    assert(decreases_to!(value.kind => value.kind->Struct_0));
                    assert(decreases_to!(*fields => fields@));
                    assert(decreases_to!(fields@ => fields@[i as int]));
                    assert(decreases_to!(fields@[i as int] => fields@[i as int].1));
                    assert(decreases_to!(*value => fields@[i as int].1));
                }
                let copied = copy_value(v);
                let ghost before = out@;
                out.push((name.clone(), copied));
                proof {
                    assert(fields@.subrange(0, i + 1).drop_last() =~= fields@.subrange(0, i as int));
                    assert(out@.drop_last() =~= before);
                }
                i = i + 1;
            }
            proof {
                assert(fields@.subrange(0, i as int) =~= fields@);
            }
            ValueKind::Struct(out)
        },
        ValueKind::Array(values) => {
            let mut out: Vec<Value> = Vec::new();
            let mut i: usize = 0;
            while i < values.len()
                invariant
                    i <= values@.len(),
                    values_view(out@) == values_view(values@.subrange(0, i as int)),
                    value.kind is Array,
                    value.kind->Array_0 == *values,
                decreases values@.len() - i,
            {
                proof {
                    assert(decreases_to!(*value => value.kind));
                    assert(value.kind is Array);
                    assert(value.kind->Array_0 == *values);
                    assert(decreases_to!(value.kind => value.kind->Array_0));
                    assert(decreases_to!(*values => values@));
                    assert(decreases_to!(values@ => values@[i as int]));
                    assert(decreases_to!(*value => values@[i as int]));
                }
                let copied = copy_value(&values[i]);
                let ghost before = out@;
                out.push(copied);
                proof {
                    assert(values@.subrange(0, i + 1).drop_last() =~= values@.subrange(0, i as int));
                    assert(out@.drop_last() =~= before);
                }
                i = i + 1;
            }
            proof {
                assert(values@.subrange(0, i as int) =~= values@);
            }
            ValueKind::Array(out)
        },
    };
    Value { kind, provenance: value.provenance.copy() }
}

/// Whether two byte sequences are equal.
fn bytes_equal(a: &Vec<u8>, b: &Vec<u8>) -> (r: bool)
    ensures
        r == (a@ == b@),
{
    if a.len() != b.len() {
        return false;
    }
    let mut i: usize = 0;
    while i < a.len()
        invariant
            i <= a@.len() == b@.len(),
            forall|j: int| 0 <= j < i ==> a@[j] == b@[j],
        decreases a@.len() - i,
    {
        if a[i] != b[i] {
            return false;
        }
        i = i + 1;
    }
    proof {
        assert(a@ =~= b@);
    }
    true
}

/// Whether two values have the same contents.
pub fn values_equal(a: &Value, b: &Value) -> (r: bool)
    ensures
        r == (value_view(*a) == value_view(*b)),
    decreases a,
{
    match (&a.kind, &b.kind) {
        (ValueKind::Integer(x), ValueKind::Integer(y)) => x.equals(y),
        (ValueKind::Bytes(x), ValueKind::Bytes(y)) => bytes_equal(x, y),
        (ValueKind::Boolean(x), ValueKind::Boolean(y)) => *x == *y,
        (ValueKind::Struct(x), ValueKind::Struct(y)) => {
            proof {
                lemma_fields_view(x@);
                lemma_fields_view(y@);
            }
            if x.len() != y.len() {
                return false;
            }
            let mut i: usize = 0;
            while i < x.len()
                invariant
                    i <= x@.len() == y@.len(),
                    a.kind is Struct,
                    a.kind->Struct_0 == *x,
                    b.kind is Struct,
                    b.kind->Struct_0 == *y,
                    forall|j: int| 0 <= j < i ==> fields_view(x@)[j] == fields_view(y@)[j],
                    fields_view(x@).len() == x@.len(),
                    fields_view(y@).len() == y@.len(),
                    forall|j: int|
                        0 <= j < x@.len() ==> #[trigger] fields_view(x@)[j] == (
                            x@[j].0@,
                            value_view(x@[j].1),
                        ),
                    forall|j: int|
                        0 <= j < y@.len() ==> #[trigger] fields_view(y@)[j] == (
                            y@[j].0@,
                            value_view(y@[j].1),
                        ),
                decreases x@.len() - i,
            {
                proof {
                    assert(decreases_to!(*a => a.kind));
                    assert(decreases_to!(a.kind => a.kind->Struct_0));
                    assert(decreases_to!(*x => x@));
                    assert(decreases_to!(x@ => x@[i as int]));
                    assert(decreases_to!(x@[i as int] => x@[i as int].1));
                    assert(decreases_to!(*a => x@[i as int].1));
                }
                let same_name = x[i].0.equals(&y[i].0);
                if !same_name {
                    proof {
                        assert(fields_view(x@)[i as int] != fields_view(y@)[i as int]);
                    }
                    return false;
                }
                let same_value = values_equal(&x[i].1, &y[i].1);
                if !same_value {
                    proof {
                        assert(fields_view(x@)[i as int] != fields_view(y@)[i as int]);
                    }
                    return false;
                }
                i = i + 1;
            }
            proof {
                assert(fields_view(x@) =~= fields_view(y@));
            }
            true
        },
        (ValueKind::Array(x), ValueKind::Array(y)) => {
            proof {
                lemma_values_view(x@);
                lemma_values_view(y@);
            }
            if x.len() != y.len() {
                return false;
            }
            let mut i: usize = 0;
            while i < x.len()
                invariant
                    i <= x@.len() == y@.len(),
                    a.kind is Array,
                    a.kind->Array_0 == *x,
                    b.kind is Array,
                    b.kind->Array_0 == *y,
                    forall|j: int| 0 <= j < i ==> values_view(x@)[j] == values_view(y@)[j],
                    values_view(x@).len() == x@.len(),
                    values_view(y@).len() == y@.len(),
                    forall|j: int|
                        0 <= j < x@.len() ==> #[trigger] values_view(x@)[j] == value_view(x@[j]),
                    forall|j: int|
                        0 <= j < y@.len() ==> #[trigger] values_view(y@)[j] == value_view(y@[j]),
                decreases x@.len() - i,
            {
                proof {
                    assert(decreases_to!(*a => a.kind));
                    assert(decreases_to!(a.kind => a.kind->Array_0));
                    assert(decreases_to!(*x => x@));
                    assert(decreases_to!(x@ => x@[i as int]));
                    assert(decreases_to!(*a => x@[i as int]));
                }
                if !values_equal(&x[i], &y[i]) {
                    proof {
                        assert(values_view(x@)[i as int] != values_view(y@)[i as int]);
                    }
                    return false;
                }
                i = i + 1;
            }
            proof {
                assert(values_view(x@) =~= values_view(y@));
            }
            true
        },
        _ => false,
    }
}

/// Bytes stand for less than `256` to the power of their number, in either order.
proof fn lemma_value_bound(bytes: Seq<u8>)
    ensures
        le_value(bytes) < pow256(bytes.len()),
        be_value(bytes) < pow256(bytes.len()),
    decreases bytes.len(),
{
    if bytes.len() > 0 {
        lemma_value_bound(bytes.drop_first());
        lemma_value_bound(bytes.drop_last());
        let p = pow256((bytes.len() - 1) as nat);
        let lo = le_value(bytes.drop_first());
        let hi = be_value(bytes.drop_last());
        assert(bytes[0] + 256 * lo < 256 * p) by (nonlinear_arith)
            requires
                lo < p,
                bytes[0] < 256,
        ;
        assert(hi * 256 + bytes.last() < 256 * p) by (nonlinear_arith)
            requires
                hi < p,
                bytes.last() < 256,
        ;
    }
}

/// The powers of 256 that integers up to 64 bits need.
proof fn lemma_pow256_values()
    ensures
        pow256(0) == 1,
        pow256(1) == 0x100,
        pow256(2) == 0x1_0000,
        pow256(3) == 0x100_0000,
        pow256(4) == 0x1_0000_0000,
        pow256(5) == 0x100_0000_0000,
        pow256(6) == 0x1_0000_0000_0000,
        pow256(7) == 0x100_0000_0000_0000,
        pow256(8) == 0x1_0000_0000_0000_0000,
{
    reveal_with_fuel(pow256, 9);
}

/// Decodes the bytes of an integer in the given byte order, in two's complement where it is
/// signed.
fn decode_integer(bytes: &Vec<u8>, big_endian: bool, signed: bool) -> (r: Int)
    requires
        1 <= bytes@.len() <= 8,
    ensures
        r@ == spec_integer(bytes@, big_endian, signed),
{
    let n = bytes.len();
    let mut unsigned: u64 = 0;
    proof {
        lemma_pow256_values();
    }
    if big_endian {
        let mut i: usize = 0;
        while i < n
            invariant
                n == bytes@.len() <= 8,
                i <= n,
                unsigned == be_value(bytes@.subrange(0, i as int)),
                unsigned < pow256(i as nat),
                pow256(8) == 0x1_0000_0000_0000_0000,
            decreases n - i,
        {
            proof {
                lemma_pow256_values();
                assert(bytes@.subrange(0, i + 1).drop_last() =~= bytes@.subrange(0, i as int));
                assert(pow256((i + 1) as nat) == 256 * pow256(i as nat));
                assert(pow256((i + 1) as nat) <= pow256(8)) by {
                    reveal_with_fuel(pow256, 9);
                }
                assert(unsigned * 256 + bytes@[i as int] < 256 * pow256(i as nat)) by (nonlinear_arith)
                    requires
                        unsigned < pow256(i as nat),
                        bytes@[i as int] < 256,
                ;
            }
            unsigned = unsigned * 256 + bytes[i] as u64;
            i = i + 1;
        }
        proof {
            assert(bytes@.subrange(0, n as int) =~= bytes@);
        }
    } else {
        let mut i: usize = n;
        while i > 0
            invariant
                n == bytes@.len() <= 8,
                i <= n,
                unsigned == le_value(bytes@.subrange(i as int, n as int)),
                unsigned < pow256((n - i) as nat),
                pow256(8) == 0x1_0000_0000_0000_0000,
            decreases i,
        {
            i = i - 1;
            proof {
                lemma_pow256_values();
                assert(bytes@.subrange(i as int, n as int).drop_first() =~= bytes@.subrange(
                    i + 1,
                    n as int,
                ));
                assert(pow256((n - i) as nat) == 256 * pow256((n - i - 1) as nat));
                assert(pow256((n - i) as nat) <= pow256(8)) by {
                    reveal_with_fuel(pow256, 9);
                }
                assert(unsigned * 256 + bytes@[i as int] < 256 * pow256((n - i - 1) as nat))
                    by (nonlinear_arith)
                    requires
                        unsigned < pow256((n - i - 1) as nat),
                        bytes@[i as int] < 256,
                ;
            }
            unsigned = bytes[i] as u64 + unsigned * 256;
        }
        proof {
            assert(bytes@.subrange(0, n as int) =~= bytes@);
        }
    }
    let msb = if big_endian {
        bytes[0]
    } else {
        bytes[n - 1]
    };
    if signed && msb >= 0x80 {
        let mut power: u128 = 1;
        let mut k: usize = 0;
        while k < n
            invariant
                n <= 8,
                k <= n,
                power == pow256(k as nat),
            decreases n - k,
        {
            proof {
                lemma_pow256_values();
                assert(pow256((k + 1) as nat) == 256 * pow256(k as nat));
                assert(pow256((k + 1) as nat) <= pow256(8)) by {
                    reveal_with_fuel(pow256, 9);
                }
            }
            power = power * 256;
            k = k + 1;
        }
        let value: i128 = unsigned as i128 - power as i128;
        Int::from_i128(value)
    } else {
        Int::from_u64(unsigned)
    }
}

/// Reads `count` bytes from `source`, using and adjusting the `offset` accordingly.
///
/// Fails with `InputTooShort` where the data ends before `count` bytes.
pub fn read_bytes<S: DataSource>(source: &mut S, offset: &mut Offset, count: u64) -> (r: Result<
    (Window, Vec<u8>),
    ParseErr<S::Error>,
>)
    requires
        count <= usize::MAX,
        content_at(old(source).content(), old(offset).spec_bytes() as int, count as int).len()
            == count ==> old(offset).spec_bytes() + count <= u64::MAX,
    ensures
        final(source).content() == old(source).content(),
        S::infallible() ==> !(r matches Err(ParseErr::SourceErr(_))),
        r is Err ==> *final(offset) == *old(offset),
        r matches Ok((window, bytes)) ==> {
            &&& bytes@ == content_at(
                old(source).content(),
                old(offset).spec_bytes() as int,
                count as int,
            )
            &&& bytes@.len() == count
            &&& final(offset).spec_bytes() == old(offset).spec_bytes() + count
            &&& window@.start == old(offset).spec_bytes()
            &&& window@.end == old(offset).spec_bytes() + count
        },
        r matches Err(ParseErr::InputTooShort) ==> content_at(
            old(source).content(),
            old(offset).spec_bytes() as int,
            count as int,
        ).len() < count,
{
    let count_as_usize = count as usize;
    let start = offset.next_whole_byte();
    let buf = match source.window_at(start, count_as_usize) {
        Ok(buf) => buf,
        Err(e) => return Err(ParseErr::SourceErr(e)),
    };
    if buf.len() < count_as_usize {
        return Err(ParseErr::InputTooShort);
    }
    proof {
        assert(buf@.len() <= count);
    }
    offset.advance_bytes(count);
    let window = Window::from_start_len(start, count);
    Ok((window, buf))
}

/// The parsing context.
pub struct ParseContext {
    /// The endianness used for parsing.
    endianness: Endianness,
    /// The current offset used for parsing.
    offset: Offset,
    /// The offset at which parsing started.
    start_offset: Offset,
    /// The parsed values.
    parsed_values: Vec<(Symbol, Value)>,
}

impl ParseContext {
    /// The state of the context as the semantics of the language sees it.
    pub closed spec fn spec_ctx(&self) -> SContext {
        SContext {
            offset: self.offset.spec_bytes() as int,
            start: self.start_offset.spec_bytes() as int,
            big_endian: self.endianness == Endianness::Big,
            values: fields_view(self.parsed_values@),
        }
    }

    /// Creates a new empty parsing context.
    pub fn with_offset(offset: Offset) -> (r: ParseContext)
        ensures
            r.spec_ctx() == (SContext {
                offset: offset.spec_bytes() as int,
                start: offset.spec_bytes() as int,
                big_endian: false,
                values: Seq::empty(),
            }),
    {
        let start_offset = offset;
        ParseContext {
            endianness: Endianness::Little,
            offset,
            start_offset,
            parsed_values: Vec::new(),
        }
    }

    /// Creates a child parsing context.
    pub fn child(&self) -> (r: ParseContext)
        ensures
            r.spec_ctx() == spec_child(self.spec_ctx()),
    {
        ParseContext {
            endianness: self.endianness,
            offset: self.offset,
            start_offset: self.start_offset,
            parsed_values: Vec::new(),
        }
    }

    /// The offset of the next byte to read.
    pub fn offset(&self) -> (r: u64)
        ensures
            r == self.spec_ctx().offset,
    {
        self.offset.next_whole_byte()
    }

    /// Looks up the first parsed value named `name` and copies it.
    fn lookup_value(fields: &Vec<(Symbol, Value)>, name: &Symbol) -> (r: Option<Value>)
        ensures
            r matches Some(v) ==> lookup(fields_view(fields@), name@) == Some(value_view(v)),
            r is None ==> lookup(fields_view(fields@), name@) is None,
    {
        proof {
            lemma_fields_view(fields@);
        }
        let mut i: usize = 0;
        while i < fields.len()
            invariant
                i <= fields@.len(),
                fields_view(fields@).len() == fields@.len(),
                forall|j: int|
                    0 <= j < fields@.len() ==> #[trigger] fields_view(fields@)[j] == (
                        fields@[j].0@,
                        value_view(fields@[j].1),
                    ),
                forall|j: int| 0 <= j < i ==> (#[trigger] fields_view(fields@)[j]).0 != name@,
            decreases fields@.len() - i,
        {
            if fields[i].0.equals(name) {
                proof {
                    lemma_lookup(fields_view(fields@), name@, i as int);
                }
                return Some(copy_value(&fields[i].1));
            }
            i = i + 1;
        }
        proof {
            lemma_lookup(fields_view(fields@), name@, i as int);
        }
        None
    }

    /// Evaluates the given expression with at most `fuel` nested steps.
    fn eval_fuel<S: DataSource>(&self, expr: &Expr, source: &mut S, Ghost(fuel): Ghost<nat>) -> (r: Result<
        Value,
        ParseErr<S::Error>,
    >)
        requires
            !(spec_eval(*expr, self.spec_ctx(), old(source).content(), fuel) is Stuck),
        ensures
            final(source).content() == old(source).content(),
            !reads_data(*expr) ==> *final(source) == *old(source),
            S::infallible() ==> !(r matches Err(ParseErr::SourceErr(_))),
            r matches Ok(v) ==> spec_eval(*expr, self.spec_ctx(), old(source).content(), fuel)
                == SOutcome::Value(value_view(v)),
            r matches Err(ParseErr::InputTooShort) ==> spec_eval(
                *expr,
                self.spec_ctx(),
                old(source).content(),
                fuel,
            ) == SOutcome::TooShort,
        decreases fuel,
    {
        let ghost content = source.content();
        let ghost f = (fuel - 1) as nat;
        match &expr.kind {
            ExprKind::ConstantInt { value } => Ok(
                Value { kind: ValueKind::Integer(value.clone()), provenance: Provenance::empty() },
            ),
            ExprKind::ConstantBytes { value } => {
                let bytes = value.clone();
                proof {
                    assert(bytes@ =~= value@);
                }
                Ok(Value { kind: ValueKind::Bytes(bytes), provenance: Provenance::empty() })
            },
            ExprKind::Offset => Ok(
                Value {
                    kind: ValueKind::Integer(Int::from_u64(self.offset.next_whole_byte())),
                    provenance: Provenance::empty(),
                },
            ),
            ExprKind::UnOp { operand, op } => {
                let operand = match self.eval_fuel(operand, source, Ghost(f)) {
                    Ok(v) => v,
                    Err(e) => return Err(e),
                };
                match operand.kind {
                    ValueKind::Boolean(b) => match op {
                        UnOp::Not => Ok(
                            Value { kind: ValueKind::Boolean(!b), provenance: operand.provenance },
                        ),
                    },
                    _ => {
                        // unreachable: only booleans are negated
                        proof {
                            assert(false);
                        }
                        Err(ParseErr::InputTooShort)
                    },
                }
            },
            ExprKind::BinOp { left, right, op } => {
                let left = match self.eval_fuel(left, source, Ghost(f)) {
                    Ok(v) => v,
                    Err(e) => return Err(e),
                };
                let right = match self.eval_fuel(right, source, Ghost(f)) {
                    Ok(v) => v,
                    Err(e) => return Err(e),
                };
                let mut provenance = left.provenance.copy();
                provenance.add(&right.provenance);
                let kind = match op {
                    BinOp::Eq => ValueKind::Boolean(values_equal(&left, &right)),
                    BinOp::Add => match (&left.kind, &right.kind) {
                        (ValueKind::Integer(a), ValueKind::Integer(b)) => ValueKind::Integer(a.add(b)),
                        _ => {
                            // unreachable: only integers are added
                            proof {
                                assert(false);
                            }
                            return Err(ParseErr::InputTooShort);
                        },
                    },
                    BinOp::Sub => match (&left.kind, &right.kind) {
                        (ValueKind::Integer(a), ValueKind::Integer(b)) => ValueKind::Integer(a.sub(b)),
                        _ => {
                            // unreachable: only integers are subtracted
                            proof {
                                assert(false);
                            }
                            return Err(ParseErr::InputTooShort);
                        },
                    },
                    _ => {
                        // unreachable: the evaluation covers these operators only
                        proof {
                            assert(false);
                        }
                        return Err(ParseErr::InputTooShort);
                    },
                };
                Ok(Value { kind, provenance })
            },
            ExprKind::VariableUse { var } => match ParseContext::lookup_value(&self.parsed_values, var) {
                Some(v) => Ok(v),
                None => {
                    // unreachable: the variable is defined
                    proof {
                        assert(false);
                    }
                    Err(ParseErr::InputTooShort)
                },
            },
            ExprKind::FieldAccess { field_holder, field } => {
                let holder = match self.eval_fuel(field_holder, source, Ghost(f)) {
                    Ok(v) => v,
                    Err(e) => return Err(e),
                };
                match &holder.kind {
                    ValueKind::Struct(fields) => match ParseContext::lookup_value(fields, field) {
                        Some(v) => Ok(v),
                        None => {
                            // unreachable: the field exists
                            proof {
                                assert(false);
                            }
                            Err(ParseErr::InputTooShort)
                        },
                    },
                    _ => {
                        // unreachable: only structures have fields
                        proof {
                            assert(false);
                        }
                        Err(ParseErr::InputTooShort)
                    },
                }
            },
            ExprKind::ParseAt { node } => {
                let mut child = self.child();
                child.parse_fuel(node, source, Ghost(f))
            },
            _ => {
                // unreachable: the evaluation covers these expressions only
                proof {
                    assert(false);
                }
                Err(ParseErr::InputTooShort)
            },
        }
    }

    /// Parses the given node into the current node context with at most `fuel` nested steps.
    fn parse_fuel<S: DataSource>(&mut self, node: &Node, source: &mut S, Ghost(fuel): Ghost<nat>) -> (r: Result<
        Value,
        ParseErr<S::Error>,
    >)
        requires
            !(spec_parse(*node, old(self).spec_ctx(), old(source).content(), fuel).0 is Stuck),
        ensures
            final(source).content() == old(source).content(),
            S::infallible() ==> !(r matches Err(ParseErr::SourceErr(_))),
            final(self).spec_ctx().start == old(self).spec_ctx().start,
            final(self).spec_ctx().big_endian == old(self).spec_ctx().big_endian,
            final(self).parsed_values@ == old(self).parsed_values@,
            r matches Ok(v) ==> spec_parse(*node, old(self).spec_ctx(), old(source).content(), fuel)
                == (SOutcome::Value(value_view(v)), final(self).spec_ctx()),
            r matches Ok(v) ==> parsed_provenance(*node, v, final(self).spec_ctx().offset),
            r matches Ok(v) ==> provenance_shape(*node, v),
            r is Err && reads_in_place(*node) ==> final(self).spec_ctx() == old(self).spec_ctx(),
            r matches Err(ParseErr::InputTooShort) ==> spec_parse(
                *node,
                old(self).spec_ctx(),
                old(source).content(),
                fuel,
            ).0 == SOutcome::TooShort,
        decreases fuel,
    {
        let ghost content = source.content();
        let ghost ctx0 = self.spec_ctx();
        let ghost f = (fuel - 1) as nat;
        match &node.offset {
            Some(offset_expr) => {
                let offset_val = match self.eval_fuel(offset_expr, source, Ghost(f)) {
                    Ok(v) => v,
                    Err(e) => return Err(e),
                };
                match &offset_val.kind {
                    ValueKind::Integer(offset) => match offset.to_u64() {
                        Some(offset) => {
                            // add the start offset here, since the nodes cannot possibly know
                            // about that
                            let start = self.start_offset.next_whole_byte();
                            self.offset = Offset::new(offset + start);
                        },
                        None => {},
                    },
                    _ => {
                        // unreachable: offsets are integers
                        proof {
                            assert(false);
                        }
                        return Err(ParseErr::InputTooShort);
                    },
                }
            },
            None => {},
        }
        let ghost ctx1 = self.spec_ctx();
        proof {
            assert(spec_seek(*node, ctx0, content, f).1 == ctx1);
            assert(spec_seek(*node, ctx0, content, f).0 is Value);
        }
        match &node.kind {
            NodeKind::FixedBytes { expected } => {
                let expected = match self.eval_fuel(expected, source, Ghost(f)) {
                    Ok(v) => v,
                    Err(e) => return Err(e),
                };
                let count: u64 = match &expected.kind {
                    ValueKind::Bytes(bytes) => bytes.len() as u64,
                    _ => {
                        // unreachable: expected bytes are bytes
                        proof {
                            assert(false);
                        }
                        return Err(ParseErr::InputTooShort);
                    },
                };
                let (window, parsed_bytes) = match read_bytes(source, &mut self.offset, count) {
                    Ok(v) => v,
                    Err(e) => return Err(e),
                };
                Ok(
                    Value {
                        kind: ValueKind::Bytes(parsed_bytes),
                        provenance: Provenance::from_window(window),
                    },
                )
            },
            NodeKind::FixedLength { length } => {
                let length_val = match self.eval_fuel(length, source, Ghost(f)) {
                    Ok(v) => v,
                    Err(e) => return Err(e),
                };
                let count: u64 = match &length_val.kind {
                    ValueKind::Integer(length) => match length.to_u64() {
                        Some(count) => count,
                        None => {
                            // unreachable: lengths fit into `u64`
                            proof {
                                assert(false);
                            }
                            return Err(ParseErr::InputTooShort);
                        },
                    },
                    _ => {
                        // unreachable: lengths are integers
                        proof {
                            assert(false);
                        }
                        return Err(ParseErr::InputTooShort);
                    },
                };
                let (window, parsed_bytes) = match read_bytes(source, &mut self.offset, count) {
                    Ok(v) => v,
                    Err(e) => return Err(e),
                };
                Ok(
                    Value {
                        kind: ValueKind::Bytes(parsed_bytes),
                        provenance: Provenance::from_window(window),
                    },
                )
            },
            NodeKind::Integer { bit_width, signed } => {
                let size_in_bytes = (*bit_width / 8) as u64;
                let (window, parsed_bytes) = match read_bytes(
                    source,
                    &mut self.offset,
                    size_in_bytes,
                ) {
                    Ok(v) => v,
                    Err(e) => return Err(e),
                };
                let big_endian = match self.endianness {
                    Endianness::Little => false,
                    Endianness::Big => true,
                };
                let value = decode_integer(&parsed_bytes, big_endian, *signed);
                Ok(
                    Value {
                        kind: ValueKind::Integer(value),
                        provenance: Provenance::from_window(window),
                    },
                )
            },
            NodeKind::Struct { nodes } => {
                let mut child_ctx = self.child();
                let mut provenance = Provenance::empty();
                let ghost child0 = child_ctx.spec_ctx();
                proof {
                    lemma_fields_view(child_ctx.parsed_values@);
                    assert(child_ctx.parsed_values@ =~= Seq::<(Symbol, Value)>::empty());
                }
                let ghost mut g: nat = f;
                let ghost whole = spec_fields(nodes@, 0, child0, content, f);
                proof {
                    assert(spec_parse(*node, ctx0, content, fuel) == (
                        whole.0,
                        SContext { offset: whole.1.offset, ..ctx1 },
                    ));
                }
                let mut i: usize = 0;
                while i < nodes.len()
                    invariant
                        source.content() == content,
                        ctx0 == old(self).spec_ctx(),
                        ctx1.start == ctx0.start,
                        ctx1.big_endian == ctx0.big_endian,
                        self.spec_ctx() == ctx1,
                        whole == spec_fields(nodes@, 0, child0, content, f),
                        spec_parse(*node, ctx0, content, fuel) == (
                            whole.0,
                            SContext { offset: whole.1.offset, ..ctx1 },
                        ),
                        content == old(source).content(),
                        self.parsed_values@ == old(self).parsed_values@,
                        node.offset is None ==> ctx1 == ctx0,
                        g <= f,
                        f < fuel,
                        i <= nodes@.len(),
                        spec_fields(nodes@, 0, child0, content, f) == spec_fields(
                            nodes@,
                            i as int,
                            child_ctx.spec_ctx(),
                            content,
                            g,
                        ),
                        !(spec_fields(nodes@, i as int, child_ctx.spec_ctx(), content, g).0 is Stuck),
                        child_ctx.spec_ctx().start == ctx1.start,
                        child_ctx.spec_ctx().big_endian == ctx1.big_endian,
                        provenance.spec_windows() == fields_windows(child_ctx.parsed_values@),
                        child_ctx.parsed_values@.len() == i,
                        forall|k: int|
                            0 <= k < i ==> (#[trigger] child_ctx.parsed_values@[k]).0@ == nodes@[k].0@
                                && provenance_shape(nodes@[k].1, child_ctx.parsed_values@[k].1),
                    decreases nodes@.len() - i,
                {
                    let (name, child_node) = &nodes[i];
                    let ghost before = child_ctx.spec_ctx();
                    proof {
                        assert(g > 0);
                    }
                    let value = match child_ctx.parse_fuel(child_node, source, Ghost((g - 1) as nat)) {
                        Ok(v) => v,
                        Err(e) => return Err(e),
                    };
                    provenance.add(&value.provenance);
                    let ghost after = child_ctx.spec_ctx();
                    let ghost pushed = child_ctx.parsed_values@;
                    let ghost windows = value.provenance.spec_windows();
                    child_ctx.parsed_values.push((name.clone(), value));
                    proof {
                        assert(child_ctx.parsed_values@.drop_last() =~= pushed);
                        assert(child_ctx.parsed_values@.last().1.provenance.spec_windows() == windows);
                        assert(fields_windows(child_ctx.parsed_values@) == fields_windows(pushed)
                            + windows);
                        assert(child_ctx.spec_ctx() == SContext {
                            values: after.values.push((nodes@[i as int].0@, value_view(value))),
                            ..after
                        });
                        g = (g - 1) as nat;
                    }
                    i = i + 1;
                }
                self.offset = child_ctx.offset;
                let parsed_values = child_ctx.parsed_values;
                Ok(Value { kind: ValueKind::Struct(parsed_values), provenance })
            },
            NodeKind::RepeatCount { node: inner, count } => {
                let count_val = match self.eval_fuel(count, source, Ghost(f)) {
                    Ok(v) => v,
                    Err(e) => return Err(e),
                };
                let n: Option<usize> = match &count_val.kind {
                    ValueKind::Integer(count) => match count.to_u64() {
                        Some(c) => if c <= usize::MAX as u64 {
                            Some(c as usize)
                        } else {
                            None
                        },
                        None => None,
                    },
                    _ => {
                        // unreachable: counts are integers
                        proof {
                            assert(false);
                        }
                        return Err(ParseErr::InputTooShort);
                    },
                };
                let mut nodes: Vec<Value> = Vec::new();
                let mut provenance = Provenance::empty();
                match n {
                    Some(n) => {
                        let ghost mut g: nat = f;
                        proof {
                            assert(spec_parse(*node, ctx0, content, fuel) == spec_repeat_count(
                                **inner,
                                n as nat,
                                ctx1,
                                content,
                                f,
                                Seq::empty(),
                            ));
                        }
                        let mut k: usize = 0;
                        while k < n
                            invariant
                                source.content() == content,
                                ctx0 == old(self).spec_ctx(),
                                ctx1.start == ctx0.start,
                                ctx1.big_endian == ctx0.big_endian,
                        ctx1.start == ctx0.start,
                        ctx1.big_endian == ctx0.big_endian,
                                spec_parse(*node, ctx0, content, fuel) == spec_repeat_count(
                                    **inner,
                                    n as nat,
                                    ctx1,
                                    content,
                                    f,
                                    Seq::empty(),
                                ),
                                content == old(source).content(),
                                self.parsed_values@ == old(self).parsed_values@,
                                !reads_in_place(*node),
                                g <= f,
                                f < fuel,
                                self.spec_ctx().start == ctx1.start,
                                self.spec_ctx().big_endian == ctx1.big_endian,
                                k <= n,
                                spec_repeat_count(**inner, n as nat, ctx1, content, f, Seq::empty())
                                    == spec_repeat_count(
                                    **inner,
                                    (n - k) as nat,
                                    self.spec_ctx(),
                                    content,
                                    g,
                                    values_view(nodes@),
                                ),
                                !(spec_repeat_count(
                                    **inner,
                                    (n - k) as nat,
                                    self.spec_ctx(),
                                    content,
                                    g,
                                    values_view(nodes@),
                                ).0 is Stuck),
                                provenance.spec_windows() == values_windows(nodes@),
                                forall|j: int|
                                    0 <= j < nodes@.len() ==> provenance_shape(**inner, #[trigger] nodes@[j]),
                            decreases n - k,
                        {
                            proof {
                                assert(g > 0);
                            }
                            let parsed = match self.parse_fuel(inner, source, Ghost((g - 1) as nat)) {
                                Ok(v) => v,
                                Err(e) => return Err(e),
                            };
                            provenance.add(&parsed.provenance);
                            let ghost before = nodes@;
                            nodes.push(parsed);
                            proof {
                                assert(nodes@.drop_last() =~= before);
                                g = (g - 1) as nat;
                            }
                            k = k + 1;
                        }
                    },
                    None => {
                        // the count does not fit into memory: nothing is parsed
                    },
                }
                proof {
                    assert(values_view(Seq::<Value>::empty()) =~= Seq::<SValue>::empty());
                }
                Ok(Value { kind: ValueKind::Array(nodes), provenance })
            },
            NodeKind::RepeatWhile { node: inner, condition } => {
                let mut nodes: Vec<Value> = Vec::new();
                let mut provenance = Provenance::empty();
                let ghost mut g: nat = f;
                proof {
                    assert(values_view(Seq::<Value>::empty()) =~= Seq::<SValue>::empty());
                    assert(spec_parse(*node, ctx0, content, fuel) == spec_repeat_while(
                        **inner,
                        *condition,
                        ctx1,
                        content,
                        f,
                        Seq::empty(),
                    ));
                }
                loop
                    invariant
                        source.content() == content,
                        ctx0 == old(self).spec_ctx(),
                        ctx1.start == ctx0.start,
                        ctx1.big_endian == ctx0.big_endian,
                        spec_parse(*node, ctx0, content, fuel) == spec_repeat_while(
                            **inner,
                            *condition,
                            ctx1,
                            content,
                            f,
                            Seq::empty(),
                        ),
                        content == old(source).content(),
                        self.parsed_values@ == old(self).parsed_values@,
                        !reads_in_place(*node),
                        g <= f,
                        f < fuel,
                        self.spec_ctx().start == ctx1.start,
                        self.spec_ctx().big_endian == ctx1.big_endian,
                        spec_repeat_while(**inner, *condition, ctx1, content, f, Seq::empty())
                            == spec_repeat_while(
                            **inner,
                            *condition,
                            self.spec_ctx(),
                            content,
                            g,
                            values_view(nodes@),
                        ),
                        !(spec_repeat_while(
                            **inner,
                            *condition,
                            self.spec_ctx(),
                            content,
                            g,
                            values_view(nodes@),
                        ).0 is Stuck),
                        provenance.spec_windows() == values_windows(nodes@),
                        forall|j: int|
                            0 <= j < nodes@.len() ==> provenance_shape(**inner, #[trigger] nodes@[j]),
                    ensures
                        provenance.spec_windows() == values_windows(nodes@),
                        forall|j: int|
                            0 <= j < nodes@.len() ==> provenance_shape(**inner, #[trigger] nodes@[j]),
                        spec_repeat_while(
                            **inner,
                            *condition,
                            self.spec_ctx(),
                            content,
                            g,
                            values_view(nodes@),
                        ) == (SOutcome::Value(SValue::Array(values_view(nodes@))), self.spec_ctx()),
                    decreases g,
                {
                    proof {
                        assert(g > 0);
                    }
                    let cond = match self.eval_fuel(condition, source, Ghost((g - 1) as nat)) {
                        Ok(v) => v,
                        Err(e) => return Err(e),
                    };
                    let go_on = match cond.kind {
                        ValueKind::Boolean(b) => b,
                        _ => {
                            // unreachable: conditions are booleans
                            proof {
                                assert(false);
                            }
                            return Err(ParseErr::InputTooShort);
                        },
                    };
                    if !go_on {
                        break;
                    }
                    let parsed = match self.parse_fuel(inner, source, Ghost((g - 1) as nat)) {
                        Ok(v) => v,
                        Err(e) => return Err(e),
                    };
                    provenance.add(&parsed.provenance);
                    let ghost before = nodes@;
                    nodes.push(parsed);
                    proof {
                        assert(nodes@.drop_last() =~= before);
                        g = (g - 1) as nat;
                    }
                }
                Ok(Value { kind: ValueKind::Array(nodes), provenance })
            },
            _ => {
                // unreachable: parsing covers these nodes only
                proof {
                    assert(false);
                }
                Err(ParseErr::InputTooShort)
            },
        }
    }

    /// Parses the given node into the current node context.
    ///
    /// Parsing must end with a value or a short input within finitely many steps; for nodes that
    /// read a fixed amount, `lemma_fixed_parse_ends` shows that it does, and `parse_checked`
    /// tests for them.
    pub fn parse<S: DataSource>(&mut self, node: &Node, source: &mut S) -> (r: Result<
        Value,
        ParseErr<S::Error>,
    >)
        requires
            exists|fuel: nat|
                !(spec_parse(*node, old(self).spec_ctx(), old(source).content(), fuel).0 is Stuck),
        ensures
            final(source).content() == old(source).content(),
            r matches Ok(v) ==> spec_parse_result(*node, old(self).spec_ctx(), old(source).content())
                == (SOutcome::Value(value_view(v)), final(self).spec_ctx()),
            r matches Ok(v) ==> parsed_provenance(*node, v, final(self).spec_ctx().offset),
            r matches Ok(v) ==> provenance_shape(*node, v),
            r is Err && reads_in_place(*node) ==> final(self).spec_ctx() == old(self).spec_ctx(),
            r matches Err(ParseErr::InputTooShort) ==> spec_parse_result(
                *node,
                old(self).spec_ctx(),
                old(source).content(),
            ).0 == SOutcome::TooShort,
            S::infallible() ==> (r is Ok <==> spec_parse_result(
                *node,
                old(self).spec_ctx(),
                old(source).content(),
            ).0 is Value),
            S::infallible() ==> (r matches Err(ParseErr::InputTooShort) <==> spec_parse_result(
                *node,
                old(self).spec_ctx(),
                old(source).content(),
            ).0 == SOutcome::TooShort),
    {
        let ghost fuel = choose|fuel: nat|
            !(spec_parse(*node, self.spec_ctx(), source.content(), fuel).0 is Stuck);
        self.parse_fuel(node, source, Ghost(fuel))
    }

    /// Parses the given node into the current node context where parsing is sure to end: the
    /// node reads a fixed amount (`SNode::is_fixed`) and the start of the context leaves room
    /// for its offsets.
    ///
    /// Returns `None`, without reading, where that is not so.
    pub fn parse_checked<S: DataSource>(&mut self, node: &Node, source: &mut S) -> (r: Option<
        Result<Value, ParseErr<S::Error>>,
    >)
        ensures
            final(source).content() == old(source).content(),
            r is None <==> !(node.deep().is_fixed() && old(self).spec_ctx().start <= u64::MAX
                - FIXED_LIMIT),
            r is None ==> final(self).spec_ctx() == old(self).spec_ctx(),
            S::infallible() ==> !(r matches Some(Err(ParseErr::SourceErr(_)))),
            r matches Some(Ok(v)) ==> spec_parse_result(*node, old(self).spec_ctx(), old(source).content())
                == (SOutcome::Value(value_view(v)), final(self).spec_ctx()),
            r matches Some(Ok(v)) ==> parsed_provenance(*node, v, final(self).spec_ctx().offset),
            r matches Some(Ok(v)) ==> provenance_shape(*node, v),
            r matches Some(Err(_)) && reads_in_place(*node) ==> final(self).spec_ctx() == old(
                self,
            ).spec_ctx(),
            r is Some && S::infallible() ==> (r->0 is Ok <==> spec_parse_result(
                *node,
                old(self).spec_ctx(),
                old(source).content(),
            ).0 is Value),
            r is Some && S::infallible() ==> (r->0 matches Err(ParseErr::InputTooShort) <==> spec_parse_result(
                *node,
                old(self).spec_ctx(),
                old(source).content(),
            ).0 == SOutcome::TooShort),
    {
        if !node.reads_fixed_amount() {
            return None;
        }
        if self.start_offset.next_whole_byte() > u64::MAX - FIXED_LIMIT {
            return None;
        }
        match source.len() {
            Ok(_) => {},
            Err(e) => return Some(Err(ParseErr::SourceErr(e))),
        }
        proof {
            lemma_fixed_parse_ends(*node, self.spec_ctx(), source.content());
        }
        Some(self.parse(node, source))
    }

    /// Evaluates the given expression; one that parses no node leaves the source as it was.
    ///
    /// The expression must evaluate to a value or a short input within finitely many steps.
    pub fn eval_expr<S: DataSource>(&self, expr: &Expr, source: &mut S) -> (r: Result<
        Value,
        ParseErr<S::Error>,
    >)
        requires
            exists|fuel: nat| !(spec_eval(*expr, self.spec_ctx(), old(source).content(), fuel) is Stuck),
        ensures
            final(source).content() == old(source).content(),
            !reads_data(*expr) ==> *final(source) == *old(source),
            r matches Ok(v) ==> spec_eval_result(*expr, self.spec_ctx(), old(source).content())
                == SOutcome::Value(value_view(v)),
            r matches Err(ParseErr::InputTooShort) ==> spec_eval_result(
                *expr,
                self.spec_ctx(),
                old(source).content(),
            ) == SOutcome::TooShort,
            S::infallible() ==> (r is Ok <==> spec_eval_result(
                *expr,
                self.spec_ctx(),
                old(source).content(),
            ) is Value),
            S::infallible() ==> (r matches Err(ParseErr::InputTooShort) <==> spec_eval_result(
                *expr,
                self.spec_ctx(),
                old(source).content(),
            ) == SOutcome::TooShort),
    {
        let ghost fuel = choose|fuel: nat|
            !(spec_eval(*expr, self.spec_ctx(), source.content(), fuel) is Stuck);
        self.eval_fuel(expr, source, Ghost(fuel))
    }
}

} // verus!

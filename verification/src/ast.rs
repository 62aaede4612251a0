//! The raw (parsed, unresolved) abstract syntax tree and its model.
//!
//! Raw nodes are produced by the external tokenize/parse collaborators and
//! never mutated afterwards.  Each raw type has a mathematical model (its
//! deep view) over which every contract of the resolution engine speaks.

use vstd::prelude::*;

verus! {

/// Comparison operator of a conditional guard; carried as data, never
/// evaluated during resolution.
#[derive(Clone, Copy, PartialEq, Eq, Structural, Debug)]
pub enum ComparisonOperator {
    Eql,
    Lt,
    Lte,
    Gt,
    Gte,
}

/// A raw node: a statement, a block, or a leaf expression.
#[derive(Debug)]
pub enum Node {
    Block(Block),
    SetValue(SetValueStatement),
    Condition(ConditionStatement),
    Color(Color),
    VarDef(VarDefinition),
    Num(i64),
    StrLit(String),
    Ref(String),
}

/// Top level statements: blocks of instructions (`Show`/`Hide`) or a file
/// import directive that splices another document's resolved output.
#[derive(Debug)]
pub enum Block {
    Show(Vec<Node>),
    Hide(Vec<Node>),
    Import(String),
}

/// A raw value-assignment statement: a name and its unresolved values.
#[derive(Debug)]
pub struct SetValueStatement {
    pub name: String,
    pub values: Vec<Node>,
}

/// A raw condition: an unresolved value paired with its operator.  This
/// node is always embedded in a `ConditionStatement`.
#[derive(Debug)]
pub struct Condition {
    pub value: Box<Node>,
    pub operator: ComparisonOperator,
}

/// A raw conditional-guard statement.
#[derive(Debug)]
pub struct ConditionStatement {
    pub name: String,
    pub condition: Condition,
}

/// A raw color composite: four channel sub-expressions.
#[derive(Debug)]
pub struct Color {
    pub r: Box<Node>,
    pub g: Box<Node>,
    pub b: Box<Node>,
    pub a: Box<Node>,
}

/// A variable definition: binds a name in the enclosing scope and
/// contributes no resolved statement of its own.
#[derive(Debug)]
pub struct VarDefinition {
    pub name: String,
    pub value: Box<Node>,
}

/// The error kinds of a compilation.  The first failure aborts the whole
/// block or document transform; nothing is recovered locally.
#[derive(Debug, PartialEq, Eq)]
pub enum CompileErr {
    /// An imported file could not be read (the import table has no entry
    /// for the path).
    IoError(String),
    /// A tokenize or parse failure, or an internal invariant violation.
    Unknown,
    /// A referenced name is bound in no enclosing scope.
    UnresolvedReference(String),
    /// A color channel did not resolve to a number in `[0, 255]`.
    InvalidColorChannel,
    /// An import chain reached a file already being imported.
    ImportCycle(String),
}

/// Model of a compilation error.
pub enum ErrV {
    IoError(Seq<char>),
    Unknown,
    UnresolvedReference(Seq<char>),
    InvalidColorChannel,
    ImportCycle(Seq<char>),
}

impl DeepView for CompileErr {
    type V = ErrV;

    open spec fn deep_view(&self) -> ErrV {
        match self {
            CompileErr::IoError(p) => ErrV::IoError(p@),
            CompileErr::Unknown => ErrV::Unknown,
            CompileErr::UnresolvedReference(n) => ErrV::UnresolvedReference(n@),
            CompileErr::InvalidColorChannel => ErrV::InvalidColorChannel,
            CompileErr::ImportCycle(p) => ErrV::ImportCycle(p@),
        }
    }
}

/// Model of a raw node.
pub enum NodeV {
    Block(BlockV),
    SetValue(SetValueStmtV),
    Condition(ConditionStmtV),
    Color(ColorV),
    VarDef(VarDefV),
    Num(i64),
    StrLit(Seq<char>),
    Ref(Seq<char>),
}

/// Model of a block or import directive.
pub enum BlockV {
    Show(Seq<NodeV>),
    Hide(Seq<NodeV>),
    Import(Seq<char>),
}

/// Model of a raw value-assignment statement.
pub struct SetValueStmtV {
    pub name: Seq<char>,
    pub values: Seq<NodeV>,
}

/// Model of a raw conditional-guard statement.
pub struct ConditionStmtV {
    pub name: Seq<char>,
    pub value: Box<NodeV>,
    pub operator: ComparisonOperator,
}

/// Model of a raw color composite.
pub struct ColorV {
    pub r: Box<NodeV>,
    pub g: Box<NodeV>,
    pub b: Box<NodeV>,
    pub a: Box<NodeV>,
}

/// Model of a variable definition.
pub struct VarDefV {
    pub name: Seq<char>,
    pub value: Box<NodeV>,
}

/// Model of a raw node.
pub open spec fn node_view(n: Node) -> NodeV
    decreases n,
{
    match n {
        Node::Block(b) => NodeV::Block(block_view(b)),
        Node::SetValue(s) => NodeV::SetValue(SetValueStmtV {
            name: s.name@,
            values: nodes_view(s.values@),
        }),
        Node::Condition(c) => NodeV::Condition(ConditionStmtV {
            name: c.name@,
            value: Box::new(node_view(*c.condition.value)),
            operator: c.condition.operator,
        }),
        Node::Color(c) => NodeV::Color(ColorV {
            r: Box::new(node_view(*c.r)),
            g: Box::new(node_view(*c.g)),
            b: Box::new(node_view(*c.b)),
            a: Box::new(node_view(*c.a)),
        }),
        Node::VarDef(d) => NodeV::VarDef(VarDefV {
            name: d.name@,
            value: Box::new(node_view(*d.value)),
        }),
        Node::Num(n) => NodeV::Num(n),
        Node::StrLit(s) => NodeV::StrLit(s@),
        Node::Ref(s) => NodeV::Ref(s@),
    }
}

/// Model of a block or import directive.
pub open spec fn block_view(b: Block) -> BlockV
    decreases b,
{
    match b {
        Block::Show(stmts) => BlockV::Show(nodes_view(stmts@)),
        Block::Hide(stmts) => BlockV::Hide(nodes_view(stmts@)),
        Block::Import(path) => BlockV::Import(path@),
    }
}

/// Model of a raw statement list.
pub open spec fn nodes_view(v: Seq<Node>) -> Seq<NodeV>
    decreases v,
{
    if v.len() == 0 {
        Seq::empty()
    } else {
        seq![node_view(v[0])] + nodes_view(v.drop_first())
    }
}

/// A statement list's model has one model per raw statement, in order.
pub proof fn lemma_nodes_view_index(v: Seq<Node>)
    ensures
        nodes_view(v).len() == v.len(),
        forall|i: int| 0 <= i < v.len() ==> nodes_view(v)[i] == node_view(#[trigger] v[i]),
    decreases v,
{
    if v.len() > 0 {
        lemma_nodes_view_index(v.drop_first());
        assert forall|i: int| 0 <= i < v.len() implies nodes_view(v)[i] == node_view(
            #[trigger] v[i],
        ) by {
            if i > 0 {
                assert(v.drop_first()[i - 1] == v[i]);
            }
        }
    }
}

/// Structural size of a raw-node model; the termination measure of the
/// resolution functions.
pub open spec fn node_size(n: NodeV) -> nat
    decreases n,
{
    match n {
        NodeV::Block(b) => 1 + block_size(b),
        NodeV::SetValue(s) => 1 + list_size(s.values),
        NodeV::Condition(c) => 1 + node_size(*c.value),
        NodeV::Color(c) => 1 + node_size(*c.r) + node_size(*c.g) + node_size(*c.b) + node_size(
            *c.a,
        ),
        NodeV::VarDef(d) => 1 + node_size(*d.value),
        NodeV::Num(_) => 1,
        NodeV::StrLit(_) => 1,
        NodeV::Ref(_) => 1,
    }
}

/// Structural size of a block model.
pub open spec fn block_size(b: BlockV) -> nat
    decreases b,
{
    match b {
        BlockV::Show(stmts) => 1 + list_size(stmts),
        BlockV::Hide(stmts) => 1 + list_size(stmts),
        BlockV::Import(_) => 1,
    }
}

/// Structural size of a statement list.
pub open spec fn list_size(s: Seq<NodeV>) -> nat
    decreases s,
{
    if s.len() == 0 {
        0
    } else {
        1 + node_size(s[0]) + list_size(s.drop_first())
    }
}

/// Every element of a list is strictly smaller than the list itself.
pub proof fn lemma_list_size_index(s: Seq<NodeV>, i: int)
    requires
        0 <= i < s.len(),
    ensures
        node_size(s[i]) < list_size(s),
    decreases s.len(),
{
    if i > 0 {
        lemma_list_size_index(s.drop_first(), i - 1);
    }
}

} // verus!

//! The resolved abstract syntax tree: the output of the transform engine.
//!
//! Resolved nodes hold only concrete values; references, variable
//! definitions and imports have been resolved away.  Two statements bear a
//! semantic identity — value statements and condition statements, both by
//! name — which drives the block merge policy.

use vstd::prelude::*;
use crate::ast::ComparisonOperator;
use crate::scope::{ScopeValue, ValueV};

verus! {

/// A resolved node.
#[derive(Debug)]
pub enum TransformedNode {
    /// A resolved `Show`/`Hide` block.
    Block(PlainBlock),
    /// A resolved value-assignment statement.
    SetValueStmt(PlainSetValueStatement),
    /// A resolved conditional-guard statement.
    ConditionStmt(PlainConditionStatement),
    /// A bare resolved value (the result of resolving a leaf expression).
    Value(ScopeValue),
    /// The spliced output of an import directive.
    ExpandedNodes(Vec<TransformedNode>),
    /// The top of a separately compiled document.
    Root(Vec<TransformedNode>),
}

/// A resolved block and its fully merged statement list.
#[derive(Debug)]
pub enum PlainBlock {
    Show(Vec<TransformedNode>),
    Hide(Vec<TransformedNode>),
}

/// A resolved value-assignment statement: a name and concrete values.
#[derive(Debug)]
pub struct PlainSetValueStatement {
    pub name: String,
    pub values: Vec<ScopeValue>,
}

/// A resolved condition: a concrete value paired with its unevaluated
/// comparison operator.
#[derive(Debug)]
pub struct PlainCondition {
    pub value: ScopeValue,
    pub operator: ComparisonOperator,
}

/// A resolved conditional-guard statement.
#[derive(Debug)]
pub struct PlainConditionStatement {
    pub name: String,
    pub condition: PlainCondition,
}

/// Model of a resolved node.
pub enum TNodeV {
    Block(PlainBlockV),
    SetValueStmt(PlainSetValueV),
    ConditionStmt(PlainConditionStmtV),
    Value(ValueV),
    ExpandedNodes(Seq<TNodeV>),
    Root(Seq<TNodeV>),
}

/// Model of a resolved block.
pub enum PlainBlockV {
    Show(Seq<TNodeV>),
    Hide(Seq<TNodeV>),
}

/// Model of a resolved value-assignment statement.
pub struct PlainSetValueV {
    pub name: Seq<char>,
    pub values: Seq<ValueV>,
}

/// Model of a resolved condition.
pub struct PlainConditionV {
    pub value: ValueV,
    pub operator: ComparisonOperator,
}

/// Model of a resolved conditional-guard statement.
pub struct PlainConditionStmtV {
    pub name: Seq<char>,
    pub condition: PlainConditionV,
}

/// Model of a resolved node.
pub open spec fn tnode_view(t: TransformedNode) -> TNodeV
    decreases t,
{
    match t {
        TransformedNode::Block(b) => TNodeV::Block(pblock_view(b)),
        TransformedNode::SetValueStmt(s) => TNodeV::SetValueStmt(PlainSetValueV {
            name: s.name@,
            values: s.values.deep_view(),
        }),
        TransformedNode::ConditionStmt(c) => TNodeV::ConditionStmt(PlainConditionStmtV {
            name: c.name@,
            condition: PlainConditionV {
                value: c.condition.value.deep_view(),
                operator: c.condition.operator,
            },
        }),
        TransformedNode::Value(v) => TNodeV::Value(v.deep_view()),
        TransformedNode::ExpandedNodes(ns) => TNodeV::ExpandedNodes(tnodes_view(ns@)),
        TransformedNode::Root(ns) => TNodeV::Root(tnodes_view(ns@)),
    }
}

/// Model of a resolved block.
pub open spec fn pblock_view(b: PlainBlock) -> PlainBlockV
    decreases b,
{
    match b {
        PlainBlock::Show(ns) => PlainBlockV::Show(tnodes_view(ns@)),
        PlainBlock::Hide(ns) => PlainBlockV::Hide(tnodes_view(ns@)),
    }
}

/// Model of a resolved statement list.
pub open spec fn tnodes_view(v: Seq<TransformedNode>) -> Seq<TNodeV>
    decreases v,
{
    if v.len() == 0 {
        Seq::empty()
    } else {
        seq![tnode_view(v[0])] + tnodes_view(v.drop_first())
    }
}

/// A statement list's model has one model per resolved statement, in order.
pub proof fn lemma_tnodes_view_index(v: Seq<TransformedNode>)
    ensures
        tnodes_view(v).len() == v.len(),
        forall|i: int| 0 <= i < v.len() ==> tnodes_view(v)[i] == tnode_view(#[trigger] v[i]),
    decreases v,
{
    if v.len() > 0 {
        lemma_tnodes_view_index(v.drop_first());
        assert forall|i: int| 0 <= i < v.len() implies tnodes_view(v)[i] == tnode_view(
            #[trigger] v[i],
        ) by {
            if i > 0 {
                assert(v.drop_first()[i - 1] == v[i]);
            }
        }
    }
}

impl PartialEq for PlainSetValueStatement {
    /// Value statements share their semantic identity when their names
    /// agree; the values do not take part.
    fn eq(&self, other: &Self) -> (r: bool)
        ensures
            r == (self.name@ == other.name@),
    {
        self.name.eq(&other.name)
    }
}

impl vstd::std_specs::cmp::PartialEqSpecImpl for PlainSetValueStatement {
    open spec fn obeys_eq_spec() -> bool {
        true
    }

    open spec fn eq_spec(&self, other: &Self) -> bool {
        self.name@ == other.name@
    }
}

impl PartialEq for PlainConditionStatement {
    /// Condition statements share their semantic identity when their names
    /// agree; operator and value do not take part.
    fn eq(&self, other: &Self) -> (r: bool)
        ensures
            r == (self.name@ == other.name@),
    {
        self.name.eq(&other.name)
    }
}

impl vstd::std_specs::cmp::PartialEqSpecImpl for PlainConditionStatement {
    open spec fn obeys_eq_spec() -> bool {
        true
    }

    open spec fn eq_spec(&self, other: &Self) -> bool {
        self.name@ == other.name@
    }
}

} // verus!

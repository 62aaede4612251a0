//! The renderer: serializes a resolved tree to the output text grammar.
//!
//! A block renders its keyword (`Show`/`Hide`) on its own line followed by
//! one line per statement; a value statement renders as its name followed
//! by its values, space separated; a condition statement renders as its
//! name, operator and value; a color value renders as its four channels.
//! Rendering never fails on well-formed resolved data; output-sink errors
//! belong to the host around this library.

use vstd::prelude::*;
use vstd::string::StringExecFns;
use crate::ast::ComparisonOperator;
use crate::resolved::{
    lemma_tnodes_view_index, pblock_view, tnode_view, tnodes_view, PlainBlock, PlainBlockV,
    PlainConditionStatement, PlainConditionStmtV, PlainSetValueStatement, PlainSetValueV, TNodeV,
    TransformedNode,
};
use crate::scope::{PlainColor, ScopeValue, ValueV};

verus! {

/// The decimal digit character of one digit value.
pub open spec fn digit_char(d: nat) -> char {
    if d == 0 {
        '0'
    } else if d == 1 {
        '1'
    } else if d == 2 {
        '2'
    } else if d == 3 {
        '3'
    } else if d == 4 {
        '4'
    } else if d == 5 {
        '5'
    } else if d == 6 {
        '6'
    } else if d == 7 {
        '7'
    } else if d == 8 {
        '8'
    } else {
        '9'
    }
}

/// The decimal text of a natural number, no leading zeros.
pub open spec fn dec_digits(n: nat) -> Seq<char>
    decreases n,
{
    if n < 10 {
        seq![digit_char(n)]
    } else {
        dec_digits(n / 10).push(digit_char(n % 10))
    }
}

/// The decimal text of an integer: a minus sign then the magnitude.
pub open spec fn num_text(i: int) -> Seq<char> {
    if i < 0 {
        seq!['-'] + dec_digits((-i) as nat)
    } else {
        dec_digits(i as nat)
    }
}

/// A color renders as its four channels, space separated.
pub open spec fn color_text(c: PlainColor) -> Seq<char> {
    dec_digits(c.r as nat) + seq![' '] + dec_digits(c.g as nat) + seq![' '] + dec_digits(
        c.b as nat,
    ) + seq![' '] + dec_digits(c.a as nat)
}

/// The text of one concrete value.
pub open spec fn value_text(v: ValueV) -> Seq<char> {
    match v {
        ValueV::Num(i) => num_text(i as int),
        ValueV::Str(s) => s,
        ValueV::Col(c) => color_text(c),
    }
}

/// The text of a comparison operator.
pub open spec fn op_text(op: ComparisonOperator) -> Seq<char> {
    match op {
        ComparisonOperator::Eql => seq!['='],
        ComparisonOperator::Lt => seq!['<'],
        ComparisonOperator::Lte => seq!['<', '='],
        ComparisonOperator::Gt => seq!['>'],
        ComparisonOperator::Gte => seq!['>', '='],
    }
}

/// The text of a value list: one leading space before each value.
pub open spec fn values_text(vs: Seq<ValueV>) -> Seq<char>
    decreases vs.len(),
{
    if vs.len() == 0 {
        Seq::empty()
    } else {
        seq![' '] + value_text(vs[0]) + values_text(vs.drop_first())
    }
}

/// The line of a value statement.
pub open spec fn sv_text(s: PlainSetValueV) -> Seq<char> {
    s.name + values_text(s.values) + seq!['\n']
}

/// The line of a condition statement.
pub open spec fn cond_text(c: PlainConditionStmtV) -> Seq<char> {
    c.name + seq![' '] + op_text(c.condition.operator) + seq![' '] + value_text(c.condition.value)
        + seq!['\n']
}

/// Structural size of a resolved-node model; the renderer's termination
/// measure.
pub open spec fn tnode_size(t: TNodeV) -> nat
    decreases t,
{
    match t {
        TNodeV::Block(b) => 1 + pblock_size(b),
        TNodeV::ExpandedNodes(ns) => 1 + tlist_size(ns),
        TNodeV::Root(ns) => 1 + tlist_size(ns),
        _ => 1,
    }
}

/// Structural size of a resolved block model.
pub open spec fn pblock_size(b: PlainBlockV) -> nat
    decreases b,
{
    match b {
        PlainBlockV::Show(ns) => 1 + tlist_size(ns),
        PlainBlockV::Hide(ns) => 1 + tlist_size(ns),
    }
}

/// Structural size of a resolved statement list.
pub open spec fn tlist_size(s: Seq<TNodeV>) -> nat
    decreases s,
{
    if s.len() == 0 {
        0
    } else {
        1 + tnode_size(s[0]) + tlist_size(s.drop_first())
    }
}

/// Every element of a resolved list is strictly smaller than the list.
pub proof fn lemma_tlist_size_index(s: Seq<TNodeV>, i: int)
    requires
        0 <= i < s.len(),
    ensures
        tnode_size(s[i]) < tlist_size(s),
    decreases s.len(),
{
    if i > 0 {
        lemma_tlist_size_index(s.drop_first(), i - 1);
    }
}

/// The text of one resolved node.
pub open spec fn render_node_text(t: TNodeV) -> Seq<char>
    decreases tnode_size(t), 2nat,
{
    match t {
        TNodeV::Block(b) => render_block_text(b),
        TNodeV::SetValueStmt(s) => sv_text(s),
        TNodeV::ConditionStmt(c) => cond_text(c),
        TNodeV::Value(v) => value_text(v).push('\n'),
        TNodeV::ExpandedNodes(ns) => render_nodes_text(ns),
        TNodeV::Root(ns) => render_nodes_text(ns),
    }
}

/// The text of a resolved block: its keyword line, then its statements.
pub open spec fn render_block_text(b: PlainBlockV) -> Seq<char>
    decreases pblock_size(b), 2nat,
{
    match b {
        PlainBlockV::Show(ns) => seq!['S', 'h', 'o', 'w', '\n'] + render_nodes_text(ns),
        PlainBlockV::Hide(ns) => seq!['H', 'i', 'd', 'e', '\n'] + render_nodes_text(ns),
    }
}

/// The text of a resolved statement list, in order.
pub open spec fn render_nodes_text(s: Seq<TNodeV>) -> Seq<char>
    decreases tlist_size(s), 0nat,
    via render_nodes_text_decreases
{
    if s.len() == 0 {
        Seq::empty()
    } else {
        render_node_text(s[0]) + render_nodes_text(s.drop_first())
    }
}

#[via_fn]
proof fn render_nodes_text_decreases(s: Seq<TNodeV>) {
    if s.len() > 0 {
        lemma_tlist_size_index(s, 0);
    }
}

/// Appends one decimal digit.
fn append_digit(d: u64, out: &mut String)
    requires
        d < 10,
    ensures
        final(out)@ == old(out)@.push(digit_char(d as nat)),
{
    let ghost pre = out@;
    if d == 0 {
        out.append("0");
        proof {
            reveal_strlit("0");
            assert(pre + "0"@ =~= pre.push('0'));
        }
    } else if d == 1 {
        out.append("1");
        proof {
            reveal_strlit("1");
            assert(pre + "1"@ =~= pre.push('1'));
        }
    } else if d == 2 {
        out.append("2");
        proof {
            reveal_strlit("2");
            assert(pre + "2"@ =~= pre.push('2'));
        }
    } else if d == 3 {
        out.append("3");
        proof {
            reveal_strlit("3");
            assert(pre + "3"@ =~= pre.push('3'));
        }
    } else if d == 4 {
        out.append("4");
        proof {
            reveal_strlit("4");
            assert(pre + "4"@ =~= pre.push('4'));
        }
    } else if d == 5 {
        out.append("5");
        proof {
            reveal_strlit("5");
            assert(pre + "5"@ =~= pre.push('5'));
        }
    } else if d == 6 {
        out.append("6");
        proof {
            reveal_strlit("6");
            assert(pre + "6"@ =~= pre.push('6'));
        }
    } else if d == 7 {
        out.append("7");
        proof {
            reveal_strlit("7");
            assert(pre + "7"@ =~= pre.push('7'));
        }
    } else if d == 8 {
        out.append("8");
        proof {
            reveal_strlit("8");
            assert(pre + "8"@ =~= pre.push('8'));
        }
    } else {
        out.append("9");
        proof {
            reveal_strlit("9");
            assert(pre + "9"@ =~= pre.push('9'));
        }
    }
}

/// Appends the decimal text of a natural number.
fn push_digits(n: u64, out: &mut String)
    ensures
        final(out)@ == old(out)@ + dec_digits(n as nat),
    decreases n,
{
    let ghost pre = out@;
    if n >= 10 {
        push_digits(n / 10, out);
        append_digit(n % 10, out);
        proof {
            assert((n / 10) as nat == n as nat / 10);
            assert((n % 10) as nat == n as nat % 10);
            assert(out@ =~= pre + dec_digits(n as nat));
        }
    } else {
        append_digit(n, out);
        proof {
            assert(pre.push(digit_char(n as nat)) =~= pre + seq![digit_char(n as nat)]);
        }
    }
}

/// Appends the decimal text of a signed number.
fn push_num(i: i64, out: &mut String)
    ensures
        final(out)@ == old(out)@ + num_text(i as int),
{
    let ghost pre = out@;
    if i < 0 {
        out.append("-");
        let m: u64 = ((-(i + 1)) as u64) + 1;
        proof {
            reveal_strlit("-");
            assert(m as nat == (-(i as int)) as nat);
        }
        push_digits(m, out);
        proof {
            assert(pre + "-"@ =~= pre.push('-'));
            assert(out@ =~= pre + num_text(i as int));
        }
    } else {
        push_digits(i as u64, out);
    }
}

/// Appends one concrete value's text.
fn push_value(v: &ScopeValue, out: &mut String)
    ensures
        final(out)@ == old(out)@ + value_text(v.deep_view()),
{
    let ghost pre = out@;
    match v {
        ScopeValue::Num(i) => push_num(*i, out),
        ScopeValue::Str(s) => {
            out.append(s.as_str());
        },
        ScopeValue::Col(c) => {
            push_digits(c.r as u64, out);
            out.append(" ");
            push_digits(c.g as u64, out);
            out.append(" ");
            push_digits(c.b as u64, out);
            out.append(" ");
            push_digits(c.a as u64, out);
            proof {
                reveal_strlit(" ");
                assert(out@ =~= pre + color_text(*c));
            }
        },
    }
}

/// Appends a value list, one leading space before each value.
fn push_values(vs: &Vec<ScopeValue>, out: &mut String)
    ensures
        final(out)@ == old(out)@ + values_text(vs.deep_view()),
{
    let ghost full = vs.deep_view();
    let ghost pre = out@;
    proof {
        assert(full.skip(0) =~= full);
    }
    let mut i: usize = 0;
    while i < vs.len()
        invariant
            i <= vs@.len(),
            full == vs.deep_view(),
            full.len() == vs@.len(),
            pre + values_text(full) == out@ + values_text(full.skip(i as int)),
        decreases vs@.len() - i,
    {
        let ghost mid = out@;
        out.append(" ");
        push_value(&vs[i], out);
        proof {
            reveal_strlit(" ");
            assert(full.skip(i as int)[0] == full[i as int]);
            assert(full.skip(i as int).drop_first() =~= full.skip(i as int + 1));
            assert(vs@[i as int].deep_view() == full[i as int]);
            assert(out@ =~= mid + (seq![' '] + value_text(full[i as int])));
            assert(out@ + values_text(full.skip(i as int + 1)) =~= mid + values_text(
                full.skip(i as int),
            ));
        }
        i = i + 1;
    }
    proof {
        assert(full.skip(full.len() as int) =~= Seq::<ValueV>::empty());
        assert(pre + values_text(full) =~= out@);
    }
}

impl ComparisonOperator {
    /// The operator's text.
    pub fn render(&self) -> (r: String)
        ensures
            r@ == op_text(*self),
    {
        let mut out = String::new();
        match self {
            ComparisonOperator::Eql => {
                out.append("=");
                proof {
                    reveal_strlit("=");
                    assert(out@ =~= op_text(*self));
                }
            },
            ComparisonOperator::Lt => {
                out.append("<");
                proof {
                    reveal_strlit("<");
                    assert(out@ =~= op_text(*self));
                }
            },
            ComparisonOperator::Lte => {
                out.append("<=");
                proof {
                    reveal_strlit("<=");
                    assert(out@ =~= op_text(*self));
                }
            },
            ComparisonOperator::Gt => {
                out.append(">");
                proof {
                    reveal_strlit(">");
                    assert(out@ =~= op_text(*self));
                }
            },
            ComparisonOperator::Gte => {
                out.append(">=");
                proof {
                    reveal_strlit(">=");
                    assert(out@ =~= op_text(*self));
                }
            },
        }
        out
    }
}

impl PlainSetValueStatement {
    /// The statement's line: its name, then its values, then a newline.
    pub fn render(&self) -> (r: String)
        ensures
            r@ == sv_text(
                PlainSetValueV { name: self.name@, values: self.values.deep_view() },
            ),
    {
        let mut out = String::new();
        out.append(self.name.as_str());
        push_values(&self.values, &mut out);
        out.append("\n");
        proof {
            reveal_strlit("\n");
            assert(out@ =~= self.name@ + values_text(self.values.deep_view()) + seq!['\n']);
        }
        out
    }
}

impl PlainConditionStatement {
    /// The statement's line: name, operator and value, space separated.
    pub fn render(&self) -> (r: String)
        ensures
            r@ == cond_text(
                PlainConditionStmtV {
                    name: self.name@,
                    condition: crate::resolved::PlainConditionV {
                        value: self.condition.value.deep_view(),
                        operator: self.condition.operator,
                    },
                },
            ),
    {
        let mut out = String::new();
        out.append(self.name.as_str());
        out.append(" ");
        let op = self.condition.operator.render();
        out.append(op.as_str());
        out.append(" ");
        push_value(&self.condition.value, &mut out);
        out.append("\n");
        proof {
            reveal_strlit(" ");
            reveal_strlit("\n");
            assert(out@ =~= self.name@ + seq![' '] + op_text(self.condition.operator) + seq![' ']
                + value_text(self.condition.value.deep_view()) + seq!['\n']);
        }
        out
    }
}

/// Appends the text of one resolved node.
fn render_node(t: &TransformedNode, out: &mut String)
    ensures
        final(out)@ == old(out)@ + render_node_text(tnode_view(*t)),
    decreases tnode_size(tnode_view(*t)), 1nat,
{
    let ghost pre = out@;
    match t {
        TransformedNode::Block(b) => {
            render_block(b, out);
        },
        TransformedNode::SetValueStmt(s) => {
            let line = s.render();
            out.append(line.as_str());
        },
        TransformedNode::ConditionStmt(c) => {
            let line = c.render();
            out.append(line.as_str());
        },
        TransformedNode::Value(v) => {
            push_value(v, out);
            out.append("\n");
            proof {
                reveal_strlit("\n");
                assert(out@ =~= pre + value_text(v.deep_view()).push('\n'));
            }
        },
        TransformedNode::ExpandedNodes(ns) => {
            render_nodes(ns, out);
        },
        TransformedNode::Root(ns) => {
            render_nodes(ns, out);
        },
    }
}

/// Appends a resolved block: its keyword line, then its statements.
fn render_block(b: &PlainBlock, out: &mut String)
    ensures
        final(out)@ == old(out)@ + render_block_text(pblock_view(*b)),
    decreases pblock_size(pblock_view(*b)), 1nat,
{
    let ghost pre = out@;
    match b {
        PlainBlock::Show(ns) => {
            out.append("Show\n");
            render_nodes(ns, out);
            proof {
                reveal_strlit("Show\n");
                assert("Show\n"@ =~= seq!['S', 'h', 'o', 'w', '\n']);
                assert(out@ =~= pre + render_block_text(pblock_view(*b)));
            }
        },
        PlainBlock::Hide(ns) => {
            out.append("Hide\n");
            render_nodes(ns, out);
            proof {
                reveal_strlit("Hide\n");
                assert("Hide\n"@ =~= seq!['H', 'i', 'd', 'e', '\n']);
                assert(out@ =~= pre + render_block_text(pblock_view(*b)));
            }
        },
    }
}

/// Appends a resolved statement list, in order.
fn render_nodes(ns: &Vec<TransformedNode>, out: &mut String)
    ensures
        final(out)@ == old(out)@ + render_nodes_text(tnodes_view(ns@)),
    decreases tlist_size(tnodes_view(ns@)), 0nat,
{
    proof {
        lemma_tnodes_view_index(ns@);
    }
    let ghost full = tnodes_view(ns@);
    let ghost pre = out@;
    proof {
        assert(full.skip(0) =~= full);
    }
    let mut i: usize = 0;
    while i < ns.len()
        invariant
            i <= ns@.len(),
            full == tnodes_view(ns@),
            full.len() == ns@.len(),
            forall|j: int| 0 <= j < full.len() ==> full[j] == tnode_view(#[trigger] ns@[j]),
            pre + render_nodes_text(full) == out@ + render_nodes_text(full.skip(i as int)),
        decreases ns@.len() - i,
    {
        let ghost mid = out@;
        proof {
            lemma_tlist_size_index(full, i as int);
        }
        render_node(&ns[i], out);
        proof {
            assert(full.skip(i as int)[0] == full[i as int]);
            assert(full.skip(i as int).drop_first() =~= full.skip(i as int + 1));
            assert(out@ + render_nodes_text(full.skip(i as int + 1)) =~= mid + render_nodes_text(
                full.skip(i as int),
            ));
        }
        i = i + 1;
    }
    proof {
        assert(full.skip(full.len() as int) =~= Seq::<TNodeV>::empty());
        assert(pre + render_nodes_text(full) =~= out@);
    }
}

impl PlainBlock {
    /// Renders this block to the output text grammar.
    pub fn render(&self) -> (r: String)
        ensures
            r@ == render_block_text(pblock_view(*self)),
    {
        let mut out = String::new();
        render_block(self, &mut out);
        out
    }
}

/// Renders a whole resolved document, statement by statement.
pub fn render_document(nodes: &Vec<TransformedNode>) -> (r: String)
    ensures
        r@ == render_nodes_text(tnodes_view(nodes@)),
{
    let mut out = String::new();
    render_nodes(nodes, &mut out);
    out
}

} // verus!

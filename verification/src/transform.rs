//! The transform engine: resolves a raw tree into a resolved tree.
//!
//! The engine walks a block's statements in source order at a child scope,
//! resolves each statement, and accumulates the output under the merge
//! policy: condition statements always append; a value statement replaces,
//! in place, an earlier value statement of the same name, and otherwise
//! appends; everything else appends.  An import directive resolves the
//! imported document at a fresh scope derived from the compilation's
//! top-level scope and splices the result flat at the directive's own
//! position.  The first failure aborts the whole transform.
//!
//! Every executable function is specified against the specification
//! functions below, which define the engine's semantics over the models of
//! the trees.

use vstd::prelude::*;
use vstd::set::{axiom_set_difference_finite, axiom_set_remove_len};
use vstd::seq_lib::seq_to_set_is_finite;
use crate::ast::{
    block_size, block_view, lemma_list_size_index, lemma_nodes_view_index, list_size, node_size,
    node_view, nodes_view, Block, BlockV, Color, ColorV, CompileErr, ConditionStatement, ErrV,
    Node, NodeV, SetValueStatement,
};
use crate::resolved::{
    lemma_tnodes_view_index, tnode_view, tnodes_view, PlainBlock, PlainBlockV, PlainCondition,
    PlainConditionStatement, PlainConditionStmtV, PlainConditionV, PlainSetValueStatement,
    PlainSetValueV, TNodeV, TransformedNode,
};
use crate::scope::{chain_lookup, string_eq, PlainColor, ScopeData, ScopeValue, ValueV};

verus! {

/// A chain of scope frames, outermost first.
pub type ChainV = Seq<Map<Seq<char>, ValueV>>;

/// The import table's model: resolved-ready raw documents by path.
pub type TableV = Map<Seq<char>, Seq<NodeV>>;

// ---------------------------------------------------------------------
// Value resolution
// ---------------------------------------------------------------------

/// Resolves a leaf expression to a concrete value under a scope chain:
/// a literal resolves to itself; a reference resolves through the chain or
/// fails with `UnresolvedReference`; a color resolves each channel in
/// order, each to a number in `[0, 255]`, or fails with
/// `InvalidColorChannel` (no clamping).  A statement node is no value and
/// fails with `Unknown`.
pub open spec fn resolve_value_v(n: NodeV, chain: ChainV) -> Result<ValueV, ErrV>
    decreases n, 0nat,
{
    match n {
        NodeV::Num(i) => Ok(ValueV::Num(i)),
        NodeV::StrLit(s) => Ok(ValueV::Str(s)),
        NodeV::Ref(name) => match chain_lookup(chain, name) {
            Some(v) => Ok(v),
            None => Err(ErrV::UnresolvedReference(name)),
        },
        NodeV::Color(c) => match resolve_channel_v(*c.r, chain) {
            Err(e) => Err(e),
            Ok(r) => match resolve_channel_v(*c.g, chain) {
                Err(e) => Err(e),
                Ok(g) => match resolve_channel_v(*c.b, chain) {
                    Err(e) => Err(e),
                    Ok(b) => match resolve_channel_v(*c.a, chain) {
                        Err(e) => Err(e),
                        Ok(a) => Ok(ValueV::Col(PlainColor { r, g, b, a })),
                    },
                },
            },
        },
        _ => Err(ErrV::Unknown),
    }
}

/// Resolves one color channel: the sub-expression must resolve to a
/// number in `[0, 255]`.
pub open spec fn resolve_channel_v(n: NodeV, chain: ChainV) -> Result<u8, ErrV>
    decreases n, 1nat,
{
    match resolve_value_v(n, chain) {
        Err(e) => Err(e),
        Ok(ValueV::Num(i)) => if 0 <= i <= 255 {
            Ok(i as u8)
        } else {
            Err(ErrV::InvalidColorChannel)
        },
        Ok(_) => Err(ErrV::InvalidColorChannel),
    }
}

/// Resolves a value list in order; the first failure aborts.
pub open spec fn resolve_values_v(vals: Seq<NodeV>, chain: ChainV) -> Result<Seq<ValueV>, ErrV>
    decreases vals.len(),
{
    if vals.len() == 0 {
        Ok(Seq::empty())
    } else {
        match resolve_value_v(vals[0], chain) {
            Err(e) => Err(e),
            Ok(v) => match resolve_values_v(vals.drop_first(), chain) {
                Err(e) => Err(e),
                Ok(rest) => Ok(seq![v] + rest),
            },
        }
    }
}

// ---------------------------------------------------------------------
// The merge policy
// ---------------------------------------------------------------------

/// The semantic identity a value statement carries: its name.
pub open spec fn sv_name(t: TNodeV) -> Option<Seq<char>> {
    match t {
        TNodeV::SetValueStmt(s) => Some(s.name),
        _ => None,
    }
}

/// The first position holding a value statement of the given name, or -1.
pub open spec fn find_sv(acc: Seq<TNodeV>, name: Seq<char>) -> int
    decreases acc.len(),
{
    if acc.len() == 0 {
        -1
    } else if sv_name(acc[0]) == Some(name) {
        0
    } else if find_sv(acc.drop_first(), name) == -1 {
        -1
    } else {
        find_sv(acc.drop_first(), name) + 1
    }
}

/// Merges one resolved statement into the output list: a condition always
/// appends; a value statement replaces an earlier value statement of the
/// same name in place, else appends; anything else appends.
pub open spec fn merge_one(acc: Seq<TNodeV>, t: TNodeV) -> Seq<TNodeV> {
    match t {
        TNodeV::ConditionStmt(_) => acc.push(t),
        TNodeV::SetValueStmt(s) => if find_sv(acc, s.name) == -1 {
            acc.push(t)
        } else {
            acc.update(find_sv(acc, s.name), t)
        },
        _ => acc.push(t),
    }
}

/// Merges a spliced group element by element, in order.
pub open spec fn merge_group(acc: Seq<TNodeV>, ns: Seq<TNodeV>) -> Seq<TNodeV>
    decreases ns.len(),
{
    if ns.len() == 0 {
        acc
    } else {
        merge_group(merge_one(acc, ns[0]), ns.drop_first())
    }
}

/// Merges one statement's transform result: nothing contributes nothing,
/// a spliced group is flattened into the list, anything else merges as one
/// statement.
pub open spec fn merge_opt(acc: Seq<TNodeV>, t: Option<TNodeV>) -> Seq<TNodeV> {
    match t {
        None => acc,
        Some(TNodeV::ExpandedNodes(ns)) => merge_group(acc, ns),
        Some(other) => merge_one(acc, other),
    }
}

// ---------------------------------------------------------------------
// The transform
// ---------------------------------------------------------------------

/// How many table entries an import chain may still enter: the number of
/// table paths not on the active import stack.  The termination measure of
/// the recursive import pipeline.
pub open spec fn unvisited(table: TableV, visited: Set<Seq<char>>) -> nat {
    table.dom().difference(visited).len()
}

/// Entering an import strictly shrinks the unvisited part of the table.
pub proof fn lemma_unvisited_decreases(table: TableV, visited: Set<Seq<char>>, path: Seq<char>)
    requires
        table.dom().finite(),
        visited.finite(),
        table.dom().contains(path),
        !visited.contains(path),
    ensures
        unvisited(table, visited.insert(path)) < unvisited(table, visited),
{
    let before = table.dom().difference(visited);
    let after = table.dom().difference(visited.insert(path));
    assert(after =~= before.remove(path));
    axiom_set_difference_finite(table.dom(), visited);
    axiom_set_remove_len(before, path);
}

/// Transforms one statement under a scope chain.  On success the result
/// pairs the statement's contribution (possibly nothing) with the chain
/// after the statement; only a variable definition changes the chain, and
/// only its innermost frame.
pub open spec fn tf_stmt(n: NodeV, chain: ChainV, table: TableV, visited: Set<Seq<char>>) -> Result<
    (Option<TNodeV>, ChainV),
    ErrV,
>
    decreases unvisited(table, visited), node_size(n), 1nat,
        when table.dom().finite() && visited.finite()
    via tf_stmt_decreases
{
    match n {
        NodeV::Block(BlockV::Show(stmts)) => match tf_stmts(
            stmts,
            chain.push(Map::empty()),
            table,
            visited,
            Seq::empty(),
        ) {
            Err(e) => Err(e),
            Ok((list, _)) => Ok((Some(TNodeV::Block(PlainBlockV::Show(list))), chain)),
        },
        NodeV::Block(BlockV::Hide(stmts)) => match tf_stmts(
            stmts,
            chain.push(Map::empty()),
            table,
            visited,
            Seq::empty(),
        ) {
            Err(e) => Err(e),
            Ok((list, _)) => Ok((Some(TNodeV::Block(PlainBlockV::Hide(list))), chain)),
        },
        NodeV::Block(BlockV::Import(path)) => if visited.contains(path) {
            Err(ErrV::ImportCycle(path))
        } else if !table.contains_key(path) {
            Err(ErrV::IoError(path))
        } else {
            match tf_stmts(
                table[path],
                seq![chain[0], Map::empty()],
                table,
                visited.insert(path),
                Seq::empty(),
            ) {
                Err(e) => Err(e),
                Ok((list, _)) => Ok((Some(TNodeV::ExpandedNodes(list)), chain)),
            }
        },
        NodeV::SetValue(s) => match resolve_values_v(s.values, chain) {
            Err(e) => Err(e),
            Ok(vs) => Ok(
                (Some(TNodeV::SetValueStmt(PlainSetValueV { name: s.name, values: vs })), chain),
            ),
        },
        NodeV::Condition(c) => match resolve_value_v(*c.value, chain) {
            Err(e) => Err(e),
            Ok(v) => Ok(
                (
                    Some(
                        TNodeV::ConditionStmt(
                            PlainConditionStmtV {
                                name: c.name,
                                condition: PlainConditionV { value: v, operator: c.operator },
                            },
                        ),
                    ),
                    chain,
                ),
            ),
        },
        NodeV::VarDef(d) => match resolve_value_v(*d.value, chain) {
            Err(e) => Err(e),
            Ok(v) => Ok(
                (None, chain.update(chain.len() - 1, chain.last().insert(d.name, v))),
            ),
        },
        _ => match resolve_value_v(n, chain) {
            Err(e) => Err(e),
            Ok(v) => Ok((Some(TNodeV::Value(v)), chain)),
        },
    }
}

#[via_fn]
proof fn tf_stmt_decreases(n: NodeV, chain: ChainV, table: TableV, visited: Set<Seq<char>>) {
    match n {
        NodeV::Block(BlockV::Show(stmts)) => {
            assert(block_size(BlockV::Show(stmts)) == 1 + list_size(stmts));
            assert(node_size(n) == 1 + block_size(BlockV::Show(stmts)));
        },
        NodeV::Block(BlockV::Hide(stmts)) => {
            assert(block_size(BlockV::Hide(stmts)) == 1 + list_size(stmts));
            assert(node_size(n) == 1 + block_size(BlockV::Hide(stmts)));
        },
        NodeV::Block(BlockV::Import(path)) => {
            if !visited.contains(path) && table.contains_key(path) {
                lemma_unvisited_decreases(table, visited, path);
            }
        },
        _ => {},
    }
}

/// Transforms a statement list in source order, threading the chain
/// through variable definitions and merging each contribution into `acc`.
/// The first failure aborts the list.
pub open spec fn tf_stmts(
    stmts: Seq<NodeV>,
    chain: ChainV,
    table: TableV,
    visited: Set<Seq<char>>,
    acc: Seq<TNodeV>,
) -> Result<(Seq<TNodeV>, ChainV), ErrV>
    decreases unvisited(table, visited), list_size(stmts), 0nat,
        when table.dom().finite() && visited.finite()
{
    if stmts.len() == 0 {
        Ok((acc, chain))
    } else {
        match tf_stmt(stmts[0], chain, table, visited) {
            Err(e) => Err(e),
            Ok((opt, chain2)) => tf_stmts(
                stmts.drop_first(),
                chain2,
                table,
                visited,
                merge_opt(acc, opt),
            ),
        }
    }
}

/// A statement leaves every outer frame of the chain as it was: only the
/// innermost frame can gain bindings, and only from a variable definition.
pub proof fn lemma_tf_stmt_outer_frames(
    n: NodeV,
    chain: ChainV,
    table: TableV,
    visited: Set<Seq<char>>,
)
    requires
        table.dom().finite(),
        visited.finite(),
        chain.len() >= 1,
        tf_stmt(n, chain, table, visited) is Ok,
    ensures
        tf_stmt(n, chain, table, visited)->Ok_0.1.len() == chain.len(),
        forall|i: int|
            0 <= i < chain.len() - 1 ==> tf_stmt(n, chain, table, visited)->Ok_0.1[i] == chain[i],
{
    match n {
        NodeV::Block(_) => {},
        NodeV::SetValue(_) => {},
        NodeV::Condition(_) => {},
        NodeV::VarDef(d) => {
            assert(tf_stmt(n, chain, table, visited)->Ok_0.1.len() == chain.len());
        },
        _ => {},
    }
}

/// A statement list leaves every outer frame of the chain as it was.
pub proof fn lemma_tf_stmts_outer_frames(
    stmts: Seq<NodeV>,
    chain: ChainV,
    table: TableV,
    visited: Set<Seq<char>>,
    acc: Seq<TNodeV>,
)
    requires
        table.dom().finite(),
        visited.finite(),
        chain.len() >= 1,
        tf_stmts(stmts, chain, table, visited, acc) is Ok,
    ensures
        tf_stmts(stmts, chain, table, visited, acc)->Ok_0.1.len() == chain.len(),
        forall|i: int|
            0 <= i < chain.len() - 1 ==> tf_stmts(stmts, chain, table, visited, acc)->Ok_0.1[i]
                == chain[i],
    decreases unvisited(table, visited), list_size(stmts),
{
    if stmts.len() > 0 {
        match tf_stmt(stmts[0], chain, table, visited) {
            Err(_) => {},
            Ok((opt, chain2)) => {
                lemma_tf_stmt_outer_frames(stmts[0], chain, table, visited);
                lemma_tf_stmts_outer_frames(
                    stmts.drop_first(),
                    chain2,
                    table,
                    visited,
                    merge_opt(acc, opt),
                );
            },
        }
    }
}


// ---------------------------------------------------------------------
// The import table
// ---------------------------------------------------------------------

/// The documents an import directive may splice, by path.  The external
/// collaborators read and parse each file before the transform runs; this
/// table stands for the file system during resolution, and a path it does
/// not hold is an unreadable file.
pub struct ImportTable {
    pub entries: Vec<(String, Vec<Node>)>,
}

/// The table's model; a later entry for the same path wins.
pub open spec fn entries_map(e: Seq<(String, Vec<Node>)>) -> TableV
    decreases e.len(),
{
    if e.len() == 0 {
        Map::empty()
    } else {
        entries_map(e.drop_last()).insert(e.last().0@, nodes_view(e.last().1@))
    }
}

/// Lookup over the entry list, newest entry first.
pub open spec fn entries_lookup(e: Seq<(String, Vec<Node>)>, path: Seq<char>) -> Option<
    Seq<NodeV>,
>
    decreases e.len(),
{
    if e.len() == 0 {
        None
    } else if e.last().0@ == path {
        Some(nodes_view(e.last().1@))
    } else {
        entries_lookup(e.drop_last(), path)
    }
}

/// Scanning the entries backward agrees with the table's map.
proof fn lemma_entries_lookup_map(e: Seq<(String, Vec<Node>)>, path: Seq<char>)
    ensures
        entries_lookup(e, path) == (if entries_map(e).contains_key(path) {
            Some(entries_map(e)[path])
        } else {
            Option::<Seq<NodeV>>::None
        }),
    decreases e.len(),
{
    if e.len() > 0 {
        lemma_entries_lookup_map(e.drop_last(), path);
    }
}

/// A table built from finitely many entries covers finitely many paths.
pub proof fn lemma_entries_map_finite(e: Seq<(String, Vec<Node>)>)
    ensures
        entries_map(e).dom().finite(),
    decreases e.len(),
{
    if e.len() > 0 {
        lemma_entries_map_finite(e.drop_last());
    }
}

impl ImportTable {
    /// The documents this table holds, by path.
    pub open spec fn map(&self) -> TableV {
        entries_map(self.entries@)
    }

    /// An empty table: under it, every import fails as an unreadable file.
    pub fn new() -> (r: ImportTable)
        ensures
            r.map() =~= Map::<Seq<char>, Seq<NodeV>>::empty(),
    {
        ImportTable { entries: Vec::new() }
    }

    /// Adds (or replaces) the document a path resolves to.
    pub fn add(&mut self, path: String, doc: Vec<Node>)
        ensures
            final(self).map() =~= old(self).map().insert(path@, nodes_view(doc@)),
    {
        self.entries.push((path, doc));
        proof {
            assert(self.entries@.drop_last() =~= old(self).entries@);
        }
    }

    /// Finds the document a path resolves to, newest entry first.
    fn get(&self, path: &String) -> (r: Option<&Vec<Node>>)
        ensures
            match r {
                Some(doc) => self.map().contains_key(path@) && self.map()[path@] == nodes_view(
                    doc@,
                ),
                None => !self.map().contains_key(path@),
            },
    {
        proof {
            lemma_entries_lookup_map(self.entries@, path@);
            assert(self.entries@.take(self.entries@.len() as int) =~= self.entries@);
        }
        let mut i = self.entries.len();
        while i > 0
            invariant
                i <= self.entries@.len(),
                entries_lookup(self.entries@, path@) == entries_lookup(
                    self.entries@.take(i as int),
                    path@,
                ),
            decreases i,
        {
            i = i - 1;
            proof {
                assert(self.entries@.take(i + 1).drop_last() =~= self.entries@.take(i as int));
                assert(self.entries@.take(i + 1).last() == self.entries@[i as int]);
            }
            if string_eq(&self.entries[i].0, path) {
                proof {
                    lemma_entries_lookup_map(self.entries@, path@);
                }
                return Some(&self.entries[i].1);
            }
        }
        None
    }
}

// ---------------------------------------------------------------------
// The active import stack
// ---------------------------------------------------------------------

/// The set of paths on the active import stack.
pub open spec fn vset(v: Seq<String>) -> Set<Seq<char>> {
    v.map_values(|s: String| s@).to_set()
}

/// A path is in the set exactly when some stack entry spells it.
proof fn lemma_vset_contains(v: Seq<String>, x: Seq<char>)
    ensures
        vset(v).contains(x) <==> (exists|i: int| 0 <= i < v.len() && (#[trigger] v[i])@ == x),
{
    let m = v.map_values(|s: String| s@);
    if vset(v).contains(x) {
        let i = choose|i: int| 0 <= i < m.len() && m[i] == x;
        assert(v[i]@ == x);
    }
    if exists|i: int| 0 <= i < v.len() && (#[trigger] v[i])@ == x {
        let i = choose|i: int| 0 <= i < v.len() && (#[trigger] v[i])@ == x;
        assert(m[i] == x);
        assert(m.contains(x));
    }
}

/// Pushing a path onto the stack inserts it into the set.
proof fn lemma_vset_push(v: Seq<String>, s: String)
    ensures
        vset(v.push(s)) =~= vset(v).insert(s@),
{
    assert forall|x: Seq<char>| vset(v.push(s)).contains(x) implies vset(v).insert(s@).contains(
        x,
    ) by {
        lemma_vset_contains(v.push(s), x);
        let i = choose|i: int| 0 <= i < v.push(s).len() && (#[trigger] v.push(s)[i])@ == x;
        if i < v.len() {
            lemma_vset_contains(v, x);
        }
    }
    assert forall|x: Seq<char>| vset(v).insert(s@).contains(x) implies vset(v.push(s)).contains(
        x,
    ) by {
        lemma_vset_contains(v.push(s), x);
        if x == s@ {
            assert(v.push(s)[v.len() as int]@ == x);
        } else {
            lemma_vset_contains(v, x);
            let i = choose|i: int| 0 <= i < v.len() && (#[trigger] v[i])@ == x;
            assert(v.push(s)[i]@ == x);
        }
    }
}

/// The stack covers finitely many paths.
proof fn lemma_vset_finite(v: Seq<String>)
    ensures
        vset(v).finite(),
{
    seq_to_set_is_finite(v.map_values(|s: String| s@));
}

/// Whether a path is on the active import stack.
fn contains_path(v: &Vec<String>, path: &String) -> (r: bool)
    ensures
        r == vset(v@).contains(path@),
{
    let mut i: usize = 0;
    while i < v.len()
        invariant
            i <= v@.len(),
            forall|j: int| 0 <= j < i ==> (#[trigger] v@[j])@ != path@,
        decreases v@.len() - i,
    {
        if string_eq(&v[i], path) {
            proof {
                lemma_vset_contains(v@, path@);
            }
            return true;
        }
        i = i + 1;
    }
    proof {
        lemma_vset_contains(v@, path@);
    }
    false
}

// ---------------------------------------------------------------------
// Value resolution (executable)
// ---------------------------------------------------------------------

/// Model of a value-resolution result.
pub open spec fn res_value_view(r: Result<ScopeValue, CompileErr>) -> Result<ValueV, ErrV> {
    match r {
        Ok(v) => Ok(v.deep_view()),
        Err(e) => Err(e.deep_view()),
    }
}

/// Resolves a leaf expression to a concrete value under the scope chain.
fn resolve_value(n: &Node, scopes: &ScopeData) -> (r: Result<ScopeValue, CompileErr>)
    requires
        scopes.wf(),
    ensures
        res_value_view(r) == resolve_value_v(node_view(*n), scopes.chain()),
    decreases node_size(node_view(*n)), 0nat,
{
    match n {
        Node::Num(i) => Ok(ScopeValue::Num(*i)),
        Node::StrLit(s) => Ok(ScopeValue::Str(s.clone())),
        Node::Ref(name) => match scopes.lookup(name) {
            Some(v) => Ok(v),
            None => Err(CompileErr::UnresolvedReference(name.clone())),
        },
        Node::Color(c) => {
            proof {
                assert(node_size(node_view(*n)) == 1 + node_size(node_view(*c.r)) + node_size(
                    node_view(*c.g),
                ) + node_size(node_view(*c.b)) + node_size(node_view(*c.a)));
            }
            let r = match resolve_channel(&*c.r, scopes) {
                Ok(x) => x,
                Err(e) => {
                    return Err(e);
                },
            };
            let g = match resolve_channel(&*c.g, scopes) {
                Ok(x) => x,
                Err(e) => {
                    return Err(e);
                },
            };
            let b = match resolve_channel(&*c.b, scopes) {
                Ok(x) => x,
                Err(e) => {
                    return Err(e);
                },
            };
            let a = match resolve_channel(&*c.a, scopes) {
                Ok(x) => x,
                Err(e) => {
                    return Err(e);
                },
            };
            Ok(ScopeValue::Col(PlainColor { r, g, b, a }))
        },
        Node::Block(_) => Err(CompileErr::Unknown),
        Node::SetValue(_) => Err(CompileErr::Unknown),
        Node::Condition(_) => Err(CompileErr::Unknown),
        Node::VarDef(_) => Err(CompileErr::Unknown),
    }
}

/// Resolves one color channel to a number in `[0, 255]`.
fn resolve_channel(n: &Node, scopes: &ScopeData) -> (r: Result<u8, CompileErr>)
    requires
        scopes.wf(),
    ensures
        (match r {
            Ok(x) => resolve_channel_v(node_view(*n), scopes.chain()) == Ok::<u8, ErrV>(x),
            Err(e) => resolve_channel_v(node_view(*n), scopes.chain()) == Err::<u8, ErrV>(
                e.deep_view(),
            ),
        }),
    decreases node_size(node_view(*n)), 1nat,
{
    match resolve_value(n, scopes) {
        Err(e) => Err(e),
        Ok(v) => match v {
            ScopeValue::Num(i) => if 0 <= i && i <= 255 {
                Ok(i as u8)
            } else {
                Err(CompileErr::InvalidColorChannel)
            },
            _ => Err(CompileErr::InvalidColorChannel),
        },
    }
}

/// A list whose every element resolves yields all values, in order.
proof fn lemma_resolve_values_ok(s: Seq<NodeV>, chain: ChainV)
    requires
        forall|j: int| 0 <= j < s.len() ==> resolve_value_v(#[trigger] s[j], chain) is Ok,
    ensures
        resolve_values_v(s, chain) is Ok,
        resolve_values_v(s, chain)->Ok_0.len() == s.len(),
        forall|j: int|
            0 <= j < s.len() ==> resolve_values_v(s, chain)->Ok_0[j] == resolve_value_v(
                #[trigger] s[j],
                chain,
            )->Ok_0,
    decreases s.len(),
{
    if s.len() > 0 {
        assert(forall|j: int|
            0 <= j < s.drop_first().len() ==> resolve_value_v(
                #[trigger] s.drop_first()[j],
                chain,
            ) is Ok) by {
            assert(forall|j: int|
                0 <= j < s.drop_first().len() ==> s.drop_first()[j] == #[trigger] s[j + 1]);
        }
        lemma_resolve_values_ok(s.drop_first(), chain);
        assert forall|j: int|
            0 <= j < s.len() implies resolve_values_v(s, chain)->Ok_0[j] == resolve_value_v(
            #[trigger] s[j],
            chain,
        )->Ok_0 by {
            if j > 0 {
                assert(s.drop_first()[j - 1] == s[j]);
            }
        }
    }
}

/// A list aborts with its first element that fails to resolve.
proof fn lemma_resolve_values_err(s: Seq<NodeV>, chain: ChainV, i: int)
    requires
        0 <= i < s.len(),
        forall|j: int| 0 <= j < i ==> resolve_value_v(#[trigger] s[j], chain) is Ok,
        resolve_value_v(s[i], chain) is Err,
    ensures
        resolve_values_v(s, chain) == Err::<Seq<ValueV>, ErrV>(
            resolve_value_v(s[i], chain)->Err_0,
        ),
    decreases i,
{
    if i > 0 {
        assert(forall|j: int|
            0 <= j < i - 1 ==> resolve_value_v(#[trigger] s.drop_first()[j], chain) is Ok) by {
            assert(forall|j: int|
                0 <= j < s.drop_first().len() ==> s.drop_first()[j] == #[trigger] s[j + 1]);
        }
        assert(s.drop_first()[i - 1] == s[i]);
        lemma_resolve_values_err(s.drop_first(), chain, i - 1);
    }
}

/// Resolves a value list in order; the first failure aborts.
fn resolve_values(vals: &Vec<Node>, scopes: &ScopeData) -> (r: Result<Vec<ScopeValue>, CompileErr>)
    requires
        scopes.wf(),
    ensures
        (match r {
            Ok(vs) => resolve_values_v(nodes_view(vals@), scopes.chain()) == Ok::<
                Seq<ValueV>,
                ErrV,
            >(vs.deep_view()),
            Err(e) => resolve_values_v(nodes_view(vals@), scopes.chain()) == Err::<
                Seq<ValueV>,
                ErrV,
            >(e.deep_view()),
        }),
{
    let ghost s = nodes_view(vals@);
    proof {
        lemma_nodes_view_index(vals@);
    }
    let mut out: Vec<ScopeValue> = Vec::new();
    let mut i: usize = 0;
    while i < vals.len()
        invariant
            scopes.wf(),
            i <= vals@.len(),
            s == nodes_view(vals@),
            s.len() == vals@.len(),
            forall|j: int| 0 <= j < s.len() ==> s[j] == node_view(#[trigger] vals@[j]),
            out.deep_view().len() == i as int,
            forall|j: int|
                0 <= j < i ==> resolve_value_v(#[trigger] s[j], scopes.chain()) is Ok
                    && out.deep_view()[j] == resolve_value_v(s[j], scopes.chain())->Ok_0,
        decreases vals@.len() - i,
    {
        let ghost prev = out.deep_view();
        match resolve_value(&vals[i], scopes) {
            Ok(v) => {
                let ghost vd = v.deep_view();
                out.push(v);
                proof {
                    assert(out.deep_view() =~= prev.push(vd));
                }
            },
            Err(e) => {
                proof {
                    lemma_resolve_values_err(s, scopes.chain(), i as int);
                }
                return Err(e);
            },
        }
        i = i + 1;
    }
    proof {
        lemma_resolve_values_ok(s, scopes.chain());
        assert forall|j: int|
            0 <= j < s.len() implies resolve_values_v(s, scopes.chain())->Ok_0[j]
            == out.deep_view()[j] by {
            assert(resolve_value_v(#[trigger] s[j], scopes.chain()) is Ok);
        }
        assert(resolve_values_v(s, scopes.chain())->Ok_0 =~= out.deep_view());
    }
    Ok(out)
}

// ---------------------------------------------------------------------
// The merge policy (executable)
// ---------------------------------------------------------------------

/// When a prefix holds no value statement of the name and a match stands
/// at `i`, the first match is at `i`.
proof fn lemma_find_sv_at(acc: Seq<TNodeV>, name: Seq<char>, i: int)
    requires
        0 <= i < acc.len(),
        forall|j: int| 0 <= j < i ==> sv_name(#[trigger] acc[j]) != Some(name),
        sv_name(acc[i]) == Some(name),
    ensures
        find_sv(acc, name) == i,
    decreases i,
{
    if i > 0 {
        assert(forall|j: int|
            0 <= j < i - 1 ==> sv_name(#[trigger] acc.drop_first()[j]) != Some(name)) by {
            assert(forall|j: int|
                0 <= j < acc.drop_first().len() ==> acc.drop_first()[j] == #[trigger] acc[j + 1]);
        }
        assert(acc.drop_first()[i - 1] == acc[i]);
        lemma_find_sv_at(acc.drop_first(), name, i - 1);
    }
}

/// When no entry is a value statement of the name, there is no match.
proof fn lemma_find_sv_none(acc: Seq<TNodeV>, name: Seq<char>)
    requires
        forall|j: int| 0 <= j < acc.len() ==> sv_name(#[trigger] acc[j]) != Some(name),
    ensures
        find_sv(acc, name) == -1,
    decreases acc.len(),
{
    if acc.len() > 0 {
        assert(forall|j: int|
            0 <= j < acc.drop_first().len() ==> sv_name(#[trigger] acc.drop_first()[j]) != Some(
                name,
            )) by {
            assert(forall|j: int|
                0 <= j < acc.drop_first().len() ==> acc.drop_first()[j] == #[trigger] acc[j + 1]);
        }
        lemma_find_sv_none(acc.drop_first(), name);
    }
}

/// The position of the first value statement of the given name, or the
/// list's length when there is none.
fn find_value_stmt(acc: &Vec<TransformedNode>, name: &String) -> (r: usize)
    ensures
        r <= acc@.len(),
        (r < acc@.len() ==> find_sv(tnodes_view(acc@), name@) == r as int),
        (r == acc@.len() ==> find_sv(tnodes_view(acc@), name@) == -1),
{
    proof {
        lemma_tnodes_view_index(acc@);
    }
    let ghost av = tnodes_view(acc@);
    let mut i: usize = 0;
    while i < acc.len()
        invariant
            i <= acc@.len(),
            av == tnodes_view(acc@),
            av.len() == acc@.len(),
            forall|j: int| 0 <= j < av.len() ==> av[j] == tnode_view(#[trigger] acc@[j]),
            forall|j: int| 0 <= j < i ==> sv_name(#[trigger] av[j]) != Some(name@),
        decreases acc@.len() - i,
    {
        let hit = match &acc[i] {
            TransformedNode::SetValueStmt(s) => string_eq(&s.name, name),
            _ => false,
        };
        if hit {
            proof {
                lemma_find_sv_at(av, name@, i as int);
            }
            return i;
        }
        proof {
            assert(sv_name(av[i as int]) != Some(name@));
        }
        i = i + 1;
    }
    proof {
        lemma_find_sv_none(av, name@);
    }
    acc.len()
}

/// Merges one resolved statement into the output list under the merge
/// policy.
fn merge_statement(acc: &mut Vec<TransformedNode>, t: TransformedNode)
    ensures
        tnodes_view(final(acc)@) == merge_one(tnodes_view(old(acc)@), tnode_view(t)),
{
    proof {
        lemma_tnodes_view_index(old(acc)@);
    }
    let ghost av = tnodes_view(old(acc)@);
    let ghost tv = tnode_view(t);
    let idx_opt: Option<usize> = match &t {
        TransformedNode::SetValueStmt(s) => {
            let idx = find_value_stmt(acc, &s.name);
            if idx < acc.len() {
                Some(idx)
            } else {
                None
            }
        },
        _ => None,
    };
    let ghost gt = t;
    match idx_opt {
        Some(idx) => {
            acc.push(t);
            let _ = acc.swap_remove(idx);
            proof {
                assert(acc@ =~= old(acc)@.update(idx as int, gt));
                lemma_tnodes_view_index(acc@);
                assert forall|j: int| 0 <= j < acc@.len() implies tnodes_view(acc@)[j]
                    == av.update(idx as int, tv)[j] by {
                    assert(tnodes_view(acc@)[j] == tnode_view(acc@[j]));
                    if j != idx as int {
                        assert(acc@[j] == old(acc)@[j]);
                        assert(av[j] == tnode_view(old(acc)@[j]));
                    } else {
                        assert(acc@[j] == gt);
                    }
                }
                assert(tnodes_view(acc@) =~= av.update(idx as int, tv));
            }
        },
        None => {
            acc.push(t);
            proof {
                lemma_tnodes_view_index(acc@);
                assert forall|j: int| 0 <= j < acc@.len() implies tnodes_view(acc@)[j] == av.push(
                    tv,
                )[j] by {
                    assert(tnodes_view(acc@)[j] == tnode_view(acc@[j]));
                    if j < av.len() {
                        assert(acc@[j] == old(acc)@[j]);
                        assert(av[j] == tnode_view(old(acc)@[j]));
                    } else {
                        assert(acc@[j] == gt);
                    }
                }
                assert(tnodes_view(acc@) =~= av.push(tv));
            }
        },
    }
}

/// Model of a statement's optional contribution.
pub open spec fn opt_tview(o: Option<TransformedNode>) -> Option<TNodeV> {
    match o {
        None => None,
        Some(t) => Some(tnode_view(t)),
    }
}

/// Merges one statement's transform result into the output list,
/// flattening a spliced group.
fn merge_result(acc: &mut Vec<TransformedNode>, t: Option<TransformedNode>)
    ensures
        tnodes_view(final(acc)@) == merge_opt(tnodes_view(old(acc)@), opt_tview(t)),
{
    let ghost av = tnodes_view(old(acc)@);
    match t {
        None => {},
        Some(x) => {
            let ghost xv = tnode_view(x);
            match x {
                TransformedNode::ExpandedNodes(mut ns) => {
                    let ghost gns = tnodes_view(ns@);
                    proof {
                        assert(xv == TNodeV::ExpandedNodes(gns));
                    }
                    while ns.len() > 0
                        invariant
                            merge_group(av, gns) == merge_group(
                                tnodes_view(acc@),
                                tnodes_view(ns@),
                            ),
                        decreases ns@.len(),
                    {
                        let ghost pre_ns = ns@;
                        let ghost pre_acc = tnodes_view(acc@);
                        let x0 = ns.remove(0);
                        proof {
                            assert(ns@ =~= pre_ns.drop_first());
                            lemma_tnodes_view_index(pre_ns);
                            lemma_tnodes_view_index(ns@);
                            assert(tnodes_view(pre_ns).drop_first() =~= tnodes_view(ns@));
                            assert(tnodes_view(pre_ns)[0] == tnode_view(x0));
                            assert(merge_group(pre_acc, tnodes_view(pre_ns)) == merge_group(
                                merge_one(pre_acc, tnode_view(x0)),
                                tnodes_view(ns@),
                            ));
                        }
                        merge_statement(acc, x0);
                    }
                    proof {
                        assert(tnodes_view(ns@) =~= Seq::<TNodeV>::empty());
                        assert(merge_group(tnodes_view(acc@), tnodes_view(ns@)) == tnodes_view(
                            acc@,
                        ));
                    }
                },
                other => {
                    merge_statement(acc, other);
                },
            }
        },
    }
}


// ---------------------------------------------------------------------
// The transform (executable)
// ---------------------------------------------------------------------

/// Transforms one statement, dispatching on its kind.  On success the
/// chain holds the statement's effect (only a variable definition has
/// one); on failure the chain is as it was.
fn tf_node(
    n: &Node,
    scopes: &mut ScopeData,
    table: &ImportTable,
    visited: &mut Vec<String>,
) -> (r: Result<Option<TransformedNode>, CompileErr>)
    requires
        old(scopes).wf(),
    ensures
        final(scopes).wf(),
        final(scopes).depth() == old(scopes).depth(),
        final(visited)@ =~= old(visited)@,
        (r is Ok ==> tf_stmt(
            node_view(*n),
            old(scopes).chain(),
            table.map(),
            vset(old(visited)@),
        ) == Ok::<(Option<TNodeV>, ChainV), ErrV>((opt_tview(r->Ok_0), final(scopes).chain()))),
        (r is Err ==> tf_stmt(
            node_view(*n),
            old(scopes).chain(),
            table.map(),
            vset(old(visited)@),
        ) == Err::<(Option<TNodeV>, ChainV), ErrV>(r->Err_0.deep_view()) && final(scopes).chain() =~= old(scopes).chain()),
    decreases unvisited(table.map(), vset(visited@)), node_size(node_view(*n)), 1nat,
{
    proof {
        lemma_entries_map_finite(table.entries@);
        lemma_vset_finite(visited@);
    }
    match n {
        Node::Block(b) => tf_block(b, scopes, table, visited),
        Node::SetValue(stmt) => match stmt.transform(scopes) {
            Ok(t) => Ok(t),
            Err(e) => Err(e),
        },
        Node::Condition(stmt) => match stmt.transform(scopes) {
            Ok(t) => Ok(t),
            Err(e) => Err(e),
        },
        Node::VarDef(d) => match resolve_value(&*d.value, scopes) {
            Ok(v) => {
                scopes.define(d.name.clone(), v);
                Ok(None)
            },
            Err(e) => Err(e),
        },
        _ => match resolve_value(n, scopes) {
            Ok(v) => Ok(Some(TransformedNode::Value(v))),
            Err(e) => Err(e),
        },
    }
}

/// Transforms a block: `Show`/`Hide` resolve their statements at a child
/// scope and merge them; an import splices the imported document, read
/// and parsed ahead of time into the table, resolved at a fresh scope
/// under the compilation's top-level scope, with cycle detection over the
/// active import stack.
fn tf_block(
    b: &Block,
    scopes: &mut ScopeData,
    table: &ImportTable,
    visited: &mut Vec<String>,
) -> (r: Result<Option<TransformedNode>, CompileErr>)
    requires
        old(scopes).wf(),
    ensures
        final(scopes).wf(),
        final(scopes).depth() == old(scopes).depth(),
        final(visited)@ =~= old(visited)@,
        (r is Ok ==> tf_stmt(
            NodeV::Block(block_view(*b)),
            old(scopes).chain(),
            table.map(),
            vset(old(visited)@),
        ) == Ok::<(Option<TNodeV>, ChainV), ErrV>((opt_tview(r->Ok_0), final(scopes).chain()))),
        (r is Err ==> tf_stmt(
            NodeV::Block(block_view(*b)),
            old(scopes).chain(),
            table.map(),
            vset(old(visited)@),
        ) == Err::<(Option<TNodeV>, ChainV), ErrV>(r->Err_0.deep_view()) && final(scopes).chain() =~= old(scopes).chain()),
    decreases
            unvisited(table.map(), vset(visited@)),
            node_size(NodeV::Block(block_view(*b))),
            0nat,
{
    proof {
        lemma_entries_map_finite(table.entries@);
        lemma_vset_finite(visited@);
    }
    match b {
        Block::Show(stmts) => {
            let ghost chain0 = scopes.chain();
            scopes.push_child();
            proof {
                assert(block_view(*b) == BlockV::Show(nodes_view(stmts@)));
                assert(block_size(BlockV::Show(nodes_view(stmts@))) == 1 + list_size(
                    nodes_view(stmts@),
                ));
                assert(node_size(NodeV::Block(block_view(*b))) == 1 + block_size(block_view(*b)));
            }
            let res = tf_stmt_list(stmts, scopes, table, visited);
            let ghost chain2 = scopes.chain();
            scopes.pop_child();
            proof {
                assert(scopes.chain() =~= chain2.drop_last());
                assert(chain2.drop_last() =~= chain0);
            }
            match res {
                Ok(list) => Ok(Some(TransformedNode::Block(PlainBlock::Show(list)))),
                Err(e) => Err(e),
            }
        },
        Block::Hide(stmts) => {
            let ghost chain0 = scopes.chain();
            scopes.push_child();
            proof {
                assert(block_view(*b) == BlockV::Hide(nodes_view(stmts@)));
                assert(block_size(BlockV::Hide(nodes_view(stmts@))) == 1 + list_size(
                    nodes_view(stmts@),
                ));
                assert(node_size(NodeV::Block(block_view(*b))) == 1 + block_size(block_view(*b)));
            }
            let res = tf_stmt_list(stmts, scopes, table, visited);
            let ghost chain2 = scopes.chain();
            scopes.pop_child();
            proof {
                assert(scopes.chain() =~= chain2.drop_last());
                assert(chain2.drop_last() =~= chain0);
            }
            match res {
                Ok(list) => Ok(Some(TransformedNode::Block(PlainBlock::Hide(list)))),
                Err(e) => Err(e),
            }
        },
        Block::Import(path) => {
            if contains_path(visited, path) {
                return Err(CompileErr::ImportCycle(path.clone()));
            }
            let doc = match table.get(path) {
                Some(d) => d,
                None => {
                    return Err(CompileErr::IoError(path.clone()));
                },
            };
            let mut sub = scopes.import_scope();
            let ghost pre_visited = visited@;
            visited.push(path.clone());
            proof {
                lemma_vset_push(pre_visited, visited@.last());
                assert(visited@.last()@ == path@);
                assert(vset(visited@) =~= vset(pre_visited).insert(path@));
                lemma_vset_finite(visited@);
                lemma_unvisited_decreases(table.map(), vset(pre_visited), path@);
            }
            let res = tf_stmt_list(doc, &mut sub, table, visited);
            let _ = visited.pop();
            proof {
                assert(visited@ =~= pre_visited);
            }
            match res {
                Ok(list) => Ok(Some(TransformedNode::ExpandedNodes(list))),
                Err(e) => Err(e),
            }
        },
    }
}

/// A successful block or import transform returns the chain it was given.
pub proof fn lemma_tf_stmt_block_chain(
    b: BlockV,
    chain: ChainV,
    table: TableV,
    visited: Set<Seq<char>>,
)
    requires
        table.dom().finite(),
        visited.finite(),
        tf_stmt(NodeV::Block(b), chain, table, visited) is Ok,
    ensures
        tf_stmt(NodeV::Block(b), chain, table, visited)->Ok_0.1 == chain,
{
    match b {
        BlockV::Show(_) => {},
        BlockV::Hide(_) => {},
        BlockV::Import(_) => {},
    }
}

/// Transforms a statement list in source order at the current scope,
/// threading definitions and merging each contribution; the first failure
/// aborts.  Frames outside the innermost are left as they were.
fn tf_stmt_list(
    stmts: &Vec<Node>,
    scopes: &mut ScopeData,
    table: &ImportTable,
    visited: &mut Vec<String>,
) -> (r: Result<Vec<TransformedNode>, CompileErr>)
    requires
        old(scopes).wf(),
    ensures
        final(scopes).wf(),
        final(scopes).depth() == old(scopes).depth(),
        final(visited)@ =~= old(visited)@,
        forall|k: int|
            0 <= k < old(scopes).chain().len() - 1 ==> final(scopes).chain()[k] == old(
                scopes,
            ).chain()[k],
        (r is Ok ==> tf_stmts(
            nodes_view(stmts@),
            old(scopes).chain(),
            table.map(),
            vset(old(visited)@),
            Seq::empty(),
        ) == Ok::<(Seq<TNodeV>, ChainV), ErrV>((tnodes_view(r->Ok_0@), final(scopes).chain()))),
        (r is Err ==> tf_stmts(
            nodes_view(stmts@),
            old(scopes).chain(),
            table.map(),
            vset(old(visited)@),
            Seq::empty(),
        ) == Err::<(Seq<TNodeV>, ChainV), ErrV>(r->Err_0.deep_view())),
    decreases unvisited(table.map(), vset(visited@)), list_size(nodes_view(stmts@)), 0nat,
{
    proof {
        lemma_entries_map_finite(table.entries@);
        lemma_vset_finite(visited@);
        lemma_nodes_view_index(stmts@);
    }
    let ghost full = nodes_view(stmts@);
    let ghost chain0 = scopes.chain();
    let ghost t_map = table.map();
    let ghost vs = vset(old(visited)@);
    let mut out: Vec<TransformedNode> = Vec::new();
    proof {
        assert(full.skip(0) =~= full);
        assert(tnodes_view(out@) == Seq::<TNodeV>::empty());
    }
    let mut i: usize = 0;
    while i < stmts.len()
        invariant
            scopes.wf(),
            scopes.depth() == old(scopes).depth(),
            visited@ =~= old(visited)@,
            i <= stmts@.len(),
            full == nodes_view(stmts@),
            full.len() == stmts@.len(),
            forall|j: int| 0 <= j < full.len() ==> full[j] == node_view(#[trigger] stmts@[j]),
            chain0 == old(scopes).chain(),
            t_map == table.map(),
            vs == vset(old(visited)@),
            t_map.dom().finite(),
            vs.finite(),
            forall|k: int| 0 <= k < chain0.len() - 1 ==> scopes.chain()[k] == chain0[k],
            tf_stmts(full, chain0, t_map, vs, Seq::empty()) == tf_stmts(
                full.skip(i as int),
                scopes.chain(),
                t_map,
                vs,
                tnodes_view(out@),
            ),
        decreases stmts@.len() - i,
    {
        let ghost pre_chain = scopes.chain();
        let ghost pre_out = tnodes_view(out@);
        proof {
            lemma_list_size_index(full, i as int);
            assert(vset(visited@) == vs);
        }
        let res = tf_node(&stmts[i], scopes, table, visited);
        match res {
            Ok(opt) => {
                proof {
                    assert(full.skip(i as int)[0] == full[i as int]);
                    assert(full.skip(i as int).drop_first() =~= full.skip(i as int + 1));
                    assert(tf_stmts(full.skip(i as int), pre_chain, t_map, vs, pre_out)
                        == tf_stmts(
                        full.skip(i as int + 1),
                        scopes.chain(),
                        t_map,
                        vs,
                        merge_opt(pre_out, opt_tview(opt)),
                    ));
                }
                merge_result(&mut out, opt);
            },
            Err(e) => {
                proof {
                    assert(full.skip(i as int)[0] == full[i as int]);
                }
                return Err(e);
            },
        }
        i = i + 1;
    }
    proof {
        assert(full.skip(stmts@.len() as int) =~= Seq::<NodeV>::empty());
        assert(tf_stmts(full, chain0, t_map, vs, Seq::empty()) == Ok::<
            (Seq<TNodeV>, ChainV),
            ErrV,
        >((tnodes_view(out@), scopes.chain())));
    }
    Ok(out)
}

// ---------------------------------------------------------------------
// The public entry points
// ---------------------------------------------------------------------

impl SetValueStatement {
    /// Resolves this statement's values in order under the scopes and
    /// yields the resolved statement; the first failing value aborts with
    /// its error.
    pub fn transform(&self, scopes: &ScopeData) -> (r: Result<
        Option<TransformedNode>,
        CompileErr,
    >)
        requires
            scopes.wf(),
        ensures
            (match r {
                Ok(Some(t)) => resolve_values_v(nodes_view(self.values@), scopes.chain()) is Ok
                    && tnode_view(t) == TNodeV::SetValueStmt(
                    PlainSetValueV {
                        name: self.name@,
                        values: resolve_values_v(nodes_view(self.values@), scopes.chain())->Ok_0,
                    },
                ),
                Ok(None) => false,
                Err(e) => resolve_values_v(nodes_view(self.values@), scopes.chain()) == Err::<
                    Seq<ValueV>,
                    ErrV,
                >(e.deep_view()),
            }),
    {
        match resolve_values(&self.values, scopes) {
            Ok(vs) => Ok(
                Some(
                    TransformedNode::SetValueStmt(
                        PlainSetValueStatement { name: self.name.clone(), values: vs },
                    ),
                ),
            ),
            Err(e) => Err(e),
        }
    }
}

impl ConditionStatement {
    /// Resolves this guard's value under the scopes and yields the
    /// resolved condition statement with its operator carried unevaluated.
    pub fn transform(&self, scopes: &ScopeData) -> (r: Result<
        Option<TransformedNode>,
        CompileErr,
    >)
        requires
            scopes.wf(),
        ensures
            (match r {
                Ok(Some(t)) => resolve_value_v(node_view(*self.condition.value), scopes.chain())
                    is Ok && tnode_view(t) == TNodeV::ConditionStmt(
                    PlainConditionStmtV {
                        name: self.name@,
                        condition: PlainConditionV {
                            value: resolve_value_v(
                                node_view(*self.condition.value),
                                scopes.chain(),
                            )->Ok_0,
                            operator: self.condition.operator,
                        },
                    },
                ),
                Ok(None) => false,
                Err(e) => resolve_value_v(node_view(*self.condition.value), scopes.chain())
                    == Err::<ValueV, ErrV>(e.deep_view()),
            }),
    {
        match resolve_value(&*self.condition.value, scopes) {
            Ok(v) => Ok(
                Some(
                    TransformedNode::ConditionStmt(
                        PlainConditionStatement {
                            name: self.name.clone(),
                            condition: PlainCondition {
                                value: v,
                                operator: self.condition.operator,
                            },
                        },
                    ),
                ),
            ),
            Err(e) => Err(e),
        }
    }
}

impl Color {
    /// The model of this raw color node.
    pub open spec fn node(&self) -> NodeV {
        NodeV::Color(
            ColorV {
                r: Box::new(node_view(*self.r)),
                g: Box::new(node_view(*self.g)),
                b: Box::new(node_view(*self.b)),
                a: Box::new(node_view(*self.a)),
            },
        )
    }

    /// Resolves the four channels in order, each to a number in
    /// `[0, 255]`, into a concrete color value; a channel outside the
    /// range aborts with `InvalidColorChannel`, with no clamping.
    pub fn transform(&self, scopes: &ScopeData) -> (r: Result<
        Option<TransformedNode>,
        CompileErr,
    >)
        requires
            scopes.wf(),
        ensures
            (match r {
                Ok(Some(t)) => resolve_value_v(self.node(), scopes.chain()) is Ok && tnode_view(t)
                    == TNodeV::Value(resolve_value_v(self.node(), scopes.chain())->Ok_0),
                Ok(None) => false,
                Err(e) => resolve_value_v(self.node(), scopes.chain()) == Err::<ValueV, ErrV>(
                    e.deep_view(),
                ),
            }),
    {
        let r = match resolve_channel(&*self.r, scopes) {
            Ok(x) => x,
            Err(e) => {
                return Err(e);
            },
        };
        let g = match resolve_channel(&*self.g, scopes) {
            Ok(x) => x,
            Err(e) => {
                return Err(e);
            },
        };
        let b = match resolve_channel(&*self.b, scopes) {
            Ok(x) => x,
            Err(e) => {
                return Err(e);
            },
        };
        let a = match resolve_channel(&*self.a, scopes) {
            Ok(x) => x,
            Err(e) => {
                return Err(e);
            },
        };
        Ok(Some(TransformedNode::Value(ScopeValue::Col(PlainColor { r, g, b, a }))))
    }
}

impl Block {
    /// Transforms this block or import directive under the given scopes
    /// and import table, with a fresh import stack.  The scopes are left
    /// as they were: a block's own definitions die with its child scope.
    pub fn transform(&self, scopes: &mut ScopeData, table: &ImportTable) -> (r: Result<
        Option<TransformedNode>,
        CompileErr,
    >)
        requires
            old(scopes).wf(),
        ensures
            final(scopes).wf(),
            final(scopes).chain() =~= old(scopes).chain(),
            (r is Ok ==> tf_stmt(
                NodeV::Block(block_view(*self)),
                old(scopes).chain(),
                table.map(),
                Set::empty(),
            ) == Ok::<(Option<TNodeV>, ChainV), ErrV>(
                (opt_tview(r->Ok_0), old(scopes).chain()),
            )),
            (r is Err ==> tf_stmt(
                NodeV::Block(block_view(*self)),
                old(scopes).chain(),
                table.map(),
                Set::empty(),
            ) == Err::<(Option<TNodeV>, ChainV), ErrV>(r->Err_0.deep_view())),
    {
        let mut visited: Vec<String> = Vec::new();
        proof {
            assert(vset(visited@) =~= Set::<Seq<char>>::empty()) by {
                assert forall|x: Seq<char>| !vset(visited@).contains(x) by {
                    lemma_vset_contains(visited@, x);
                }
            }
        }
        let r = tf_block(self, scopes, table, &mut visited);
        proof {
            if r is Ok {
                lemma_entries_map_finite(table.entries@);
                lemma_tf_stmt_block_chain(
                    block_view(*self),
                    old(scopes).chain(),
                    table.map(),
                    Set::empty(),
                );
            }
        }
        r
    }
}

/// Compiles a whole document: transforms its top-level statements in
/// source order at a fresh, empty top-level scope, merging contributions
/// exactly as a block does.
pub fn transform_root(doc: &Vec<Node>, table: &ImportTable) -> (r: Result<
    Vec<TransformedNode>,
    CompileErr,
>)
    ensures
        (r is Ok ==> tf_stmts(
            nodes_view(doc@),
            seq![Map::empty()],
            table.map(),
            Set::empty(),
            Seq::empty(),
        ) is Ok && tnodes_view(r->Ok_0@) == tf_stmts(
            nodes_view(doc@),
            seq![Map::empty()],
            table.map(),
            Set::empty(),
            Seq::empty(),
        )->Ok_0.0),
        (r is Err ==> tf_stmts(
            nodes_view(doc@),
            seq![Map::empty()],
            table.map(),
            Set::empty(),
            Seq::empty(),
        ) == Err::<(Seq<TNodeV>, ChainV), ErrV>(r->Err_0.deep_view())),
{
    let mut scopes = ScopeData::new();
    let mut visited: Vec<String> = Vec::new();
    proof {
        assert(vset(visited@) =~= Set::<Seq<char>>::empty()) by {
            assert forall|x: Seq<char>| !vset(visited@).contains(x) by {
                lemma_vset_contains(visited@, x);
            }
        }
        assert(scopes.chain() =~= seq![Map::<Seq<char>, ValueV>::empty()]);
    }
    tf_stmt_list(doc, &mut scopes, table, &mut visited)
}

} // verus!

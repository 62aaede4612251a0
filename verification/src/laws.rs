//! The laws of the resolution engine, each proved from the specification
//! functions the executable contracts are stated over.

use vstd::prelude::*;
use crate::ast::{BlockV, ColorV, ConditionStmtV, ErrV, NodeV, SetValueStmtV};
use crate::render::{tlist_size, tnode_size, lemma_tlist_size_index};
use crate::resolved::{PlainBlockV, PlainSetValueV, TNodeV};
use crate::scope::{chain_lookup, PlainColor, ValueV};
use crate::transform::{
    find_sv, merge_group, merge_one, resolve_value_v, resolve_values_v, sv_name, tf_stmt, tf_stmts,
    ChainV, TableV,
};

verus! {

// ---------------------------------------------------------------------
// The merge policy's laws
// ---------------------------------------------------------------------

/// The first match of a name: when there is one, it is the first position
/// bearing the name; when there is none, no position bears it.
pub proof fn lemma_find_sv_first(acc: Seq<TNodeV>, name: Seq<char>)
    ensures
        find_sv(acc, name) == -1 ==> (forall|j: int|
            0 <= j < acc.len() ==> sv_name(#[trigger] acc[j]) != Some(name)),
        find_sv(acc, name) != -1 ==> 0 <= find_sv(acc, name) < acc.len() && sv_name(
            acc[find_sv(acc, name)],
        ) == Some(name) && (forall|j: int|
            0 <= j < find_sv(acc, name) ==> sv_name(#[trigger] acc[j]) != Some(name)),
    decreases acc.len(),
{
    if acc.len() > 0 {
        lemma_find_sv_first(acc.drop_first(), name);
        assert(forall|j: int|
            0 <= j < acc.drop_first().len() ==> acc.drop_first()[j] == #[trigger] acc[j + 1]);
        let rest = acc.drop_first();
        if sv_name(acc[0]) != Some(name) && find_sv(rest, name) != -1 {
            let i = find_sv(rest, name) + 1;
            assert(acc[i] == rest[i - 1]);
            assert forall|j: int| 0 <= j < i implies sv_name(#[trigger] acc[j]) != Some(name) by {
                if j > 0 {
                    assert(acc[j] == rest[j - 1]);
                }
            }
        }
        if sv_name(acc[0]) != Some(name) && find_sv(rest, name) == -1 {
            assert forall|j: int|
                0 <= j < acc.len() implies sv_name(#[trigger] acc[j]) != Some(name) by {
                if j > 0 {
                    assert(acc[j] == rest[j - 1]);
                }
            }
        }
    }
}

/// A later value statement overrides an earlier one of the same name in
/// place: the output keeps its length, the overridden statement sits at
/// the position of the name's first occurrence, and every other entry is
/// untouched.  A value statement of a fresh name appends.
pub proof fn law_value_override(acc: Seq<TNodeV>, s: PlainSetValueV)
    ensures
        find_sv(acc, s.name) == -1 ==> merge_one(acc, TNodeV::SetValueStmt(s)) == acc.push(
            TNodeV::SetValueStmt(s),
        ),
        find_sv(acc, s.name) != -1 ==> {
            let i = find_sv(acc, s.name);
            &&& merge_one(acc, TNodeV::SetValueStmt(s)) == acc.update(i, TNodeV::SetValueStmt(s))
            &&& merge_one(acc, TNodeV::SetValueStmt(s)).len() == acc.len()
            &&& sv_name(acc[i]) == Some(s.name)
            &&& (forall|j: int| 0 <= j < i ==> sv_name(#[trigger] acc[j]) != Some(s.name))
        },
{
    lemma_find_sv_first(acc, s.name);
}

/// Condition statements accumulate: merging one always appends, whatever
/// the list already holds, also under an equal name.
pub proof fn law_condition_accumulates(acc: Seq<TNodeV>, t: TNodeV)
    requires
        t is ConditionStmt,
    ensures
        merge_one(acc, t) == acc.push(t),
{
}

/// A list of condition statements merges to the whole list, in order and
/// unmodified.
pub proof fn law_condition_list_accumulates(acc: Seq<TNodeV>, cs: Seq<TNodeV>)
    requires
        forall|i: int| 0 <= i < cs.len() ==> (#[trigger] cs[i]) is ConditionStmt,
    ensures
        merge_group(acc, cs) == acc + cs,
    decreases cs.len(),
{
    if cs.len() == 0 {
        assert(acc + cs =~= acc);
    } else {
        law_condition_list_accumulates(acc.push(cs[0]), cs.drop_first());
        assert(forall|i: int|
            0 <= i < cs.drop_first().len() ==> cs.drop_first()[i] == #[trigger] cs[i + 1]);
        assert(acc.push(cs[0]) + cs.drop_first() =~= acc + cs);
    }
}

/// Whether a statement's identity (if it has one) is absent from a list.
pub open spec fn name_fresh(nm: Option<Seq<char>>, ts: Seq<TNodeV>) -> bool {
    match nm {
        None => true,
        Some(n) => find_sv(ts, n) == -1,
    }
}

/// How the first match moves over an append.
pub proof fn lemma_find_sv_push(acc: Seq<TNodeV>, x: TNodeV, name: Seq<char>)
    ensures
        find_sv(acc.push(x), name) == (if find_sv(acc, name) != -1 {
            find_sv(acc, name)
        } else if sv_name(x) == Some(name) {
            acc.len() as int
        } else {
            -1
        }),
    decreases acc.len(),
{
    if acc.len() > 0 {
        assert(acc.push(x)[0] == acc[0]);
        assert(acc.push(x).drop_first() =~= acc.drop_first().push(x));
        lemma_find_sv_push(acc.drop_first(), x, name);
        let rest = acc.drop_first();
        if sv_name(acc[0]) == Some(name) {
            assert(find_sv(acc, name) == 0);
            assert(find_sv(acc.push(x), name) == 0);
        } else {
            lemma_find_sv_first(rest, name);
            lemma_find_sv_first(rest.push(x), name);
            assert(find_sv(acc.push(x), name) == (if find_sv(rest.push(x), name) == -1 {
                -1
            } else {
                find_sv(rest.push(x), name) + 1
            }));
            assert(find_sv(acc, name) == (if find_sv(rest, name) == -1 {
                -1
            } else {
                find_sv(rest, name) + 1
            }));
        }
    } else {
        assert(acc.push(x)[0] == x);
        assert(acc.push(x).drop_first() =~= Seq::<TNodeV>::empty());
        assert(find_sv(Seq::<TNodeV>::empty(), name) == -1);
        assert(find_sv(acc, name) == -1);
        if sv_name(x) == Some(name) {
            assert(find_sv(acc.push(x), name) == 0);
        } else {
            assert(find_sv(acc.push(x), name) == -1);
        }
    }
}

/// A spliced group whose identities collide with nothing — neither with
/// the list so far nor among themselves — appends whole, in order, at the
/// splice position.
pub proof fn law_splice_appends(acc: Seq<TNodeV>, ns: Seq<TNodeV>)
    requires
        forall|i: int|
            0 <= i < ns.len() ==> name_fresh(sv_name(#[trigger] ns[i]), acc + ns.take(i)),
    ensures
        merge_group(acc, ns) == acc + ns,
    decreases ns.len(),
{
    if ns.len() == 0 {
        assert(acc + ns =~= acc);
    } else {
        let x = ns[0];
        assert(acc + ns.take(0) =~= acc);
        match sv_name(x) {
            None => {
                assert(merge_one(acc, x) == acc.push(x));
            },
            Some(nm) => {
                assert(name_fresh(sv_name(x), acc));
                law_value_override(
                    acc,
                    match x {
                        TNodeV::SetValueStmt(s) => s,
                        _ => arbitrary(),
                    },
                );
                assert(merge_one(acc, x) == acc.push(x));
            },
        }
        assert forall|i: int|
            0 <= i < ns.drop_first().len() implies name_fresh(
            sv_name(#[trigger] ns.drop_first()[i]),
            acc.push(x) + ns.drop_first().take(i),
        ) by {
            assert(ns.drop_first()[i] == ns[i + 1]);
            assert(acc.push(x) + ns.drop_first().take(i) =~= acc + ns.take(i + 1));
            assert(name_fresh(sv_name(ns[i + 1]), acc + ns.take(i + 1)));
        }
        law_splice_appends(acc.push(x), ns.drop_first());
        assert(acc.push(x) + ns.drop_first() =~= acc + ns);
    }
}

// ---------------------------------------------------------------------
// The scope chain's laws
// ---------------------------------------------------------------------

/// A binding of the innermost scope shadows the outer chain; a name the
/// innermost scope does not bind resolves exactly as it did outside.
pub proof fn law_lookup_shadowing(
    chain: ChainV,
    frame: Map<Seq<char>, ValueV>,
    name: Seq<char>,
)
    ensures
        chain_lookup(chain.push(frame), name) == (if frame.contains_key(name) {
            Some(frame[name])
        } else {
            chain_lookup(chain, name)
        }),
{
    assert(chain.push(frame).drop_last() =~= chain);
}

/// A block (or import) leaves the scope chain exactly as it was: a name
/// defined inside it is not visible to any statement after it.
pub proof fn law_block_scope_isolation(
    b: BlockV,
    chain: ChainV,
    table: TableV,
    visited: Set<Seq<char>>,
)
    requires
        table.dom().finite(),
        visited.finite(),
        tf_stmt(NodeV::Block(b), chain, table, visited) is Ok,
    ensures
        tf_stmt(NodeV::Block(b), chain, table, visited)->Ok_0.1 == chain,
{
    crate::transform::lemma_tf_stmt_block_chain(b, chain, table, visited);
}

// ---------------------------------------------------------------------
// The value resolver's laws
// ---------------------------------------------------------------------

/// A reference no enclosing scope binds fails with `UnresolvedReference`,
/// naming the reference; a bound one resolves to the bound value.
pub proof fn law_unresolved_reference(name: Seq<char>, chain: ChainV)
    ensures
        chain_lookup(chain, name) is None ==> resolve_value_v(NodeV::Ref(name), chain) == Err::<
            ValueV,
            ErrV,
        >(ErrV::UnresolvedReference(name)),
        chain_lookup(chain, name) is Some ==> resolve_value_v(NodeV::Ref(name), chain) == Ok::<
            ValueV,
            ErrV,
        >(chain_lookup(chain, name)->Some_0),
{
}

/// A color whose first channel resolves to a number outside `[0, 255]`
/// fails with `InvalidColorChannel`; nothing is clamped.
pub proof fn law_color_channel_bounds(c: ColorV, chain: ChainV, i: i64)
    requires
        resolve_value_v(*c.r, chain) == Ok::<ValueV, ErrV>(ValueV::Num(i)),
        !(0 <= i <= 255),
    ensures
        resolve_value_v(NodeV::Color(c), chain) == Err::<ValueV, ErrV>(ErrV::InvalidColorChannel),
{
}

/// A color whose four channels resolve to numbers in `[0, 255]` resolves
/// to exactly those channel values.
pub proof fn law_color_in_bounds(c: ColorV, chain: ChainV, r: i64, g: i64, b: i64, a: i64)
    requires
        resolve_value_v(*c.r, chain) == Ok::<ValueV, ErrV>(ValueV::Num(r)),
        resolve_value_v(*c.g, chain) == Ok::<ValueV, ErrV>(ValueV::Num(g)),
        resolve_value_v(*c.b, chain) == Ok::<ValueV, ErrV>(ValueV::Num(b)),
        resolve_value_v(*c.a, chain) == Ok::<ValueV, ErrV>(ValueV::Num(a)),
        0 <= r <= 255,
        0 <= g <= 255,
        0 <= b <= 255,
        0 <= a <= 255,
    ensures
        resolve_value_v(NodeV::Color(c), chain) == Ok::<ValueV, ErrV>(
            ValueV::Col(PlainColor { r: r as u8, g: g as u8, b: b as u8, a: a as u8 }),
        ),
{
}

// ---------------------------------------------------------------------
// The round trip
// ---------------------------------------------------------------------

/// The raw leaf a rendered concrete value reads back as: a literal.
pub open spec fn raw_value_of(v: ValueV) -> NodeV {
    match v {
        ValueV::Num(i) => NodeV::Num(i),
        ValueV::Str(s) => NodeV::StrLit(s),
        ValueV::Col(c) => NodeV::Color(
            ColorV {
                r: Box::new(NodeV::Num(c.r as i64)),
                g: Box::new(NodeV::Num(c.g as i64)),
                b: Box::new(NodeV::Num(c.b as i64)),
                a: Box::new(NodeV::Num(c.a as i64)),
            },
        ),
    }
}

/// The raw value list a rendered value list reads back as.
pub open spec fn raw_values_of(vs: Seq<ValueV>) -> Seq<NodeV> {
    vs.map_values(|v: ValueV| raw_value_of(v))
}

/// The raw statement a rendered resolved statement reads back as.
pub open spec fn raw_stmt_of(t: TNodeV) -> NodeV
    decreases tnode_size(t), 1nat,
{
    match t {
        TNodeV::SetValueStmt(s) => NodeV::SetValue(
            SetValueStmtV { name: s.name, values: raw_values_of(s.values) },
        ),
        TNodeV::ConditionStmt(c) => NodeV::Condition(
            ConditionStmtV {
                name: c.name,
                value: Box::new(raw_value_of(c.condition.value)),
                operator: c.condition.operator,
            },
        ),
        TNodeV::Block(PlainBlockV::Show(ns)) => NodeV::Block(BlockV::Show(raw_stmts_of(ns))),
        TNodeV::Block(PlainBlockV::Hide(ns)) => NodeV::Block(BlockV::Hide(raw_stmts_of(ns))),
        _ => NodeV::Num(0),
    }
}

/// The raw statement list a rendered resolved document reads back as.
pub open spec fn raw_stmts_of(ts: Seq<TNodeV>) -> Seq<NodeV>
    decreases tlist_size(ts), 0nat,
    via raw_stmts_of_decreases
{
    if ts.len() == 0 {
        Seq::empty()
    } else {
        seq![raw_stmt_of(ts[0])] + raw_stmts_of(ts.drop_first())
    }
}

#[via_fn]
proof fn raw_stmts_of_decreases(ts: Seq<TNodeV>) {
    if ts.len() > 0 {
        lemma_tlist_size_index(ts, 0);
    }
}

/// What the renderer's output denotes: a resolved statement is one of a
/// value statement, a condition statement or a block, and within each
/// list no two value statements share a name (the merge policy's output
/// shape).
pub open spec fn resolved_stmt_wf(t: TNodeV) -> bool
    decreases tnode_size(t), 1nat,
{
    match t {
        TNodeV::SetValueStmt(_) => true,
        TNodeV::ConditionStmt(_) => true,
        TNodeV::Block(PlainBlockV::Show(ns)) => resolved_list_wf(ns),
        TNodeV::Block(PlainBlockV::Hide(ns)) => resolved_list_wf(ns),
        _ => false,
    }
}

/// Well-formedness of a resolved statement list: each statement well
/// formed, and no value statement's name repeated later.
pub open spec fn resolved_list_wf(ts: Seq<TNodeV>) -> bool
    decreases tlist_size(ts), 0nat,
    via resolved_list_wf_decreases
{
    if ts.len() == 0 {
        true
    } else {
        resolved_stmt_wf(ts[0]) && name_fresh(sv_name(ts[0]), ts.drop_first())
            && resolved_list_wf(ts.drop_first())
    }
}

#[via_fn]
proof fn resolved_list_wf_decreases(ts: Seq<TNodeV>) {
    if ts.len() > 0 {
        lemma_tlist_size_index(ts, 0);
    }
}

/// A rendered concrete value reads back to itself.
proof fn lemma_value_roundtrip(v: ValueV, chain: ChainV)
    ensures
        resolve_value_v(raw_value_of(v), chain) == Ok::<ValueV, ErrV>(v),
{
    match v {
        ValueV::Col(c) => {
            assert(crate::transform::resolve_channel_v(NodeV::Num(c.r as i64), chain) == Ok::<
                u8,
                ErrV,
            >(c.r)) by {
                assert(resolve_value_v(NodeV::Num(c.r as i64), chain) == Ok::<ValueV, ErrV>(
                    ValueV::Num(c.r as i64),
                ));
            }
            assert(crate::transform::resolve_channel_v(NodeV::Num(c.g as i64), chain) == Ok::<
                u8,
                ErrV,
            >(c.g)) by {
                assert(resolve_value_v(NodeV::Num(c.g as i64), chain) == Ok::<ValueV, ErrV>(
                    ValueV::Num(c.g as i64),
                ));
            }
            assert(crate::transform::resolve_channel_v(NodeV::Num(c.b as i64), chain) == Ok::<
                u8,
                ErrV,
            >(c.b)) by {
                assert(resolve_value_v(NodeV::Num(c.b as i64), chain) == Ok::<ValueV, ErrV>(
                    ValueV::Num(c.b as i64),
                ));
            }
            assert(crate::transform::resolve_channel_v(NodeV::Num(c.a as i64), chain) == Ok::<
                u8,
                ErrV,
            >(c.a)) by {
                assert(resolve_value_v(NodeV::Num(c.a as i64), chain) == Ok::<ValueV, ErrV>(
                    ValueV::Num(c.a as i64),
                ));
            }
            assert(resolve_value_v(raw_value_of(v), chain) == Ok::<ValueV, ErrV>(
                ValueV::Col(PlainColor { r: c.r, g: c.g, b: c.b, a: c.a }),
            ));
            assert(PlainColor { r: c.r, g: c.g, b: c.b, a: c.a } == c);
        },
        _ => {},
    }
}

/// A rendered value list reads back to itself.
proof fn lemma_values_roundtrip(vs: Seq<ValueV>, chain: ChainV)
    ensures
        resolve_values_v(raw_values_of(vs), chain) == Ok::<Seq<ValueV>, ErrV>(vs),
    decreases vs.len(),
{
    if vs.len() == 0 {
        assert(raw_values_of(vs) =~= Seq::<NodeV>::empty());
        assert(resolve_values_v(raw_values_of(vs), chain) == Ok::<Seq<ValueV>, ErrV>(
            Seq::empty(),
        ));
        assert(vs =~= Seq::<ValueV>::empty());
    } else {
        lemma_value_roundtrip(vs[0], chain);
        lemma_values_roundtrip(vs.drop_first(), chain);
        assert(raw_values_of(vs).drop_first() =~= raw_values_of(vs.drop_first()));
        assert(raw_values_of(vs)[0] == raw_value_of(vs[0]));
        assert(seq![vs[0]] + vs.drop_first() =~= vs);
    }
}

/// A rendered resolved statement reads back and re-resolves to itself,
/// at any scope, and leaves the scope chain as it was.
proof fn lemma_stmt_roundtrip(t: TNodeV, chain: ChainV, table: TableV, visited: Set<Seq<char>>)
    requires
        table.dom().finite(),
        visited.finite(),
        chain.len() >= 1,
        resolved_stmt_wf(t),
    ensures
        tf_stmt(raw_stmt_of(t), chain, table, visited) == Ok::<(Option<TNodeV>, ChainV), ErrV>(
            (Some(t), chain),
        ),
    decreases tnode_size(t), 1nat,
{
    match t {
        TNodeV::SetValueStmt(s) => {
            lemma_values_roundtrip(s.values, chain);
            assert(SetValueStmtV { name: s.name, values: raw_values_of(s.values) }.name == s.name);
            assert(PlainSetValueV { name: s.name, values: s.values } == s);
        },
        TNodeV::ConditionStmt(c) => {
            lemma_value_roundtrip(c.condition.value, chain);
            assert(crate::resolved::PlainConditionStmtV {
                name: c.name,
                condition: crate::resolved::PlainConditionV {
                    value: c.condition.value,
                    operator: c.condition.operator,
                },
            } == c);
        },
        TNodeV::Block(PlainBlockV::Show(ns)) => {
            assert(tnode_size(t) == 2 + tlist_size(ns));
            lemma_list_roundtrip(ns, Seq::empty(), chain.push(Map::empty()), table, visited);
            assert(Seq::<TNodeV>::empty() + ns =~= ns);
        },
        TNodeV::Block(PlainBlockV::Hide(ns)) => {
            assert(tnode_size(t) == 2 + tlist_size(ns));
            lemma_list_roundtrip(ns, Seq::empty(), chain.push(Map::empty()), table, visited);
            assert(Seq::<TNodeV>::empty() + ns =~= ns);
        },
        _ => {},
    }
}

/// A rendered resolved statement list reads back and re-resolves, at any
/// scope, to the list itself appended to what was already merged, when no
/// identity collides with the accumulator.
proof fn lemma_list_roundtrip(
    ts: Seq<TNodeV>,
    acc: Seq<TNodeV>,
    chain: ChainV,
    table: TableV,
    visited: Set<Seq<char>>,
)
    requires
        table.dom().finite(),
        visited.finite(),
        chain.len() >= 1,
        resolved_list_wf(ts),
        forall|i: int| 0 <= i < ts.len() ==> name_fresh(sv_name(#[trigger] ts[i]), acc),
    ensures
        tf_stmts(raw_stmts_of(ts), chain, table, visited, acc) == Ok::<
            (Seq<TNodeV>, ChainV),
            ErrV,
        >((acc + ts, chain)),
    decreases tlist_size(ts), 0nat,
{
    if ts.len() == 0 {
        assert(raw_stmts_of(ts) =~= Seq::<NodeV>::empty());
        assert(acc + ts =~= acc);
    } else {
        let t0 = ts[0];
        lemma_tlist_size_index(ts, 0);
        lemma_stmt_roundtrip(t0, chain, table, visited);
        assert(raw_stmts_of(ts)[0] == raw_stmt_of(t0));
        assert(raw_stmts_of(ts).drop_first() =~= raw_stmts_of(ts.drop_first()));
        // the first statement appends: its identity is fresh in `acc`
        match sv_name(t0) {
            None => {},
            Some(nm) => {
                lemma_find_sv_first(acc, nm);
            },
        }
        assert(merge_one(acc, t0) == acc.push(t0));
        // freshness carries to the grown accumulator
        assert forall|i: int|
            0 <= i < ts.drop_first().len() implies name_fresh(
            sv_name(#[trigger] ts.drop_first()[i]),
            acc.push(t0),
        ) by {
            assert(ts.drop_first()[i] == ts[i + 1]);
            match sv_name(ts[i + 1]) {
                None => {},
                Some(nm) => {
                    lemma_find_sv_push(acc, t0, nm);
                    if sv_name(t0) == Some(nm) {
                        lemma_find_sv_first(ts.drop_first(), nm);
                        assert(sv_name(ts.drop_first()[i]) == Some(nm));
                        assert(find_sv(ts.drop_first(), nm) != -1);
                        assert(false);
                    }
                },
            }
        }
        lemma_list_roundtrip(ts.drop_first(), acc.push(t0), chain, table, visited);
        assert(acc.push(t0) + ts.drop_first() =~= acc + ts);
    }
}

/// The round-trip law: the raw form that a rendered resolved document
/// reads back as — every value a literal — re-resolves, at any scope and
/// under any import table, to exactly the same resolved statements in the
/// same order.  The external parser's faithfulness on the rendered text is
/// the one step taken on trust outside this statement.
pub proof fn law_round_trip(ts: Seq<TNodeV>, chain: ChainV, table: TableV)
    requires
        table.dom().finite(),
        chain.len() >= 1,
        resolved_list_wf(ts),
    ensures
        tf_stmts(raw_stmts_of(ts), chain, table, Set::empty(), Seq::empty()) == Ok::<
            (Seq<TNodeV>, ChainV),
            ErrV,
        >((ts, chain)),
{
    lemma_list_roundtrip(ts, Seq::empty(), chain, table, Set::empty());
    assert(Seq::<TNodeV>::empty() + ts =~= ts);
}

} // verus!

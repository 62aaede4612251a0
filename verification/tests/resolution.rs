use filterlang::ast::{
    Block, Color, ComparisonOperator, CompileErr, Condition, ConditionStatement, Node,
    SetValueStatement, VarDefinition,
};
use filterlang::resolved::{PlainBlock, PlainSetValueStatement, TransformedNode};
use filterlang::scope::{PlainColor, ScopeData, ScopeValue};
use filterlang::transform::{transform_root, ImportTable};

fn set_value(name: &str, values: Vec<Node>) -> Node {
    Node::SetValue(SetValueStatement { name: name.to_string(), values })
}

fn set_num(name: &str, v: i64) -> Node {
    set_value(name, vec![Node::Num(v)])
}

fn condition(name: &str, op: ComparisonOperator, v: i64) -> Node {
    Node::Condition(ConditionStatement {
        name: name.to_string(),
        condition: Condition { value: Box::new(Node::Num(v)), operator: op },
    })
}

fn var_def(name: &str, v: Node) -> Node {
    Node::VarDef(VarDefinition { name: name.to_string(), value: Box::new(v) })
}

fn reference(name: &str) -> Node {
    Node::Ref(name.to_string())
}

fn show(stmts: Vec<Node>) -> Block {
    Block::Show(stmts)
}

fn transform_block(b: &Block, table: &ImportTable) -> Result<Option<TransformedNode>, CompileErr> {
    let mut scopes = ScopeData::new();
    b.transform(&mut scopes, table)
}

fn block_statements(t: TransformedNode) -> Vec<TransformedNode> {
    match t {
        TransformedNode::Block(PlainBlock::Show(stmts)) => stmts,
        TransformedNode::Block(PlainBlock::Hide(stmts)) => stmts,
        other => panic!("expected a resolved block, got {:?}", other),
    }
}

fn stmt_name_and_num(t: &TransformedNode) -> (String, i64) {
    match t {
        TransformedNode::SetValueStmt(s) => {
            assert_eq!(s.values.len(), 1);
            match &s.values[0] {
                ScopeValue::Num(n) => (s.name.clone(), *n),
                other => panic!("expected a number, got {:?}", other),
            }
        },
        other => panic!("expected a value statement, got {:?}", other),
    }
}

#[test]
fn merge_overrides_same_name_in_place() {
    let b = show(vec![set_num("A", 1), set_num("B", 2), set_num("A", 3)]);
    let table = ImportTable::new();
    let stmts = block_statements(transform_block(&b, &table).unwrap().unwrap());
    assert_eq!(stmts.len(), 2);
    assert_eq!(stmt_name_and_num(&stmts[0]), ("A".to_string(), 3));
    assert_eq!(stmt_name_and_num(&stmts[1]), ("B".to_string(), 2));
}

#[test]
fn conditions_accumulate_in_order() {
    let b = show(vec![
        condition("X", ComparisonOperator::Eql, 1),
        condition("X", ComparisonOperator::Eql, 2),
    ]);
    let table = ImportTable::new();
    let stmts = block_statements(transform_block(&b, &table).unwrap().unwrap());
    assert_eq!(stmts.len(), 2);
    let expect = [1i64, 2i64];
    for (t, want) in stmts.iter().zip(expect.iter()) {
        match t {
            TransformedNode::ConditionStmt(c) => {
                assert_eq!(c.name, "X");
                assert!(matches!(c.condition.operator, ComparisonOperator::Eql));
                assert!(matches!(c.condition.value, ScopeValue::Num(n) if n == *want));
            },
            other => panic!("expected a condition statement, got {:?}", other),
        }
    }
}

#[test]
fn condition_and_value_of_same_name_do_not_merge() {
    let b = show(vec![condition("A", ComparisonOperator::Gt, 1), set_num("A", 2)]);
    let table = ImportTable::new();
    let stmts = block_statements(transform_block(&b, &table).unwrap().unwrap());
    assert_eq!(stmts.len(), 2);
    assert!(matches!(stmts[0], TransformedNode::ConditionStmt(_)));
    assert!(matches!(stmts[1], TransformedNode::SetValueStmt(_)));
}

#[test]
fn inner_definition_invisible_to_siblings() {
    let b = show(vec![
        Node::Block(show(vec![var_def("x", Node::Num(5))])),
        set_value("Y", vec![reference("x")]),
    ]);
    let table = ImportTable::new();
    let err = transform_block(&b, &table).unwrap_err();
    assert_eq!(err, CompileErr::UnresolvedReference("x".to_string()));
}

#[test]
fn outer_definition_visible_in_nested_block() {
    let b = show(vec![
        var_def("x", Node::Num(7)),
        Node::Block(show(vec![set_value("Y", vec![reference("x")])])),
    ]);
    let table = ImportTable::new();
    let stmts = block_statements(transform_block(&b, &table).unwrap().unwrap());
    assert_eq!(stmts.len(), 1);
    let inner = match &stmts[0] {
        TransformedNode::Block(PlainBlock::Show(inner)) => inner,
        other => panic!("expected a nested block, got {:?}", other),
    };
    assert_eq!(stmt_name_and_num(&inner[0]), ("Y".to_string(), 7));
}

#[test]
fn inner_definition_shadows_outer() {
    let b = show(vec![
        var_def("x", Node::Num(1)),
        Node::Block(show(vec![
            var_def("x", Node::Num(2)),
            set_value("Y", vec![reference("x")]),
        ])),
        set_value("Z", vec![reference("x")]),
    ]);
    let table = ImportTable::new();
    let stmts = block_statements(transform_block(&b, &table).unwrap().unwrap());
    assert_eq!(stmts.len(), 2);
    let inner = match &stmts[0] {
        TransformedNode::Block(PlainBlock::Show(inner)) => inner,
        other => panic!("expected a nested block, got {:?}", other),
    };
    assert_eq!(stmt_name_and_num(&inner[0]), ("Y".to_string(), 2));
    assert_eq!(stmt_name_and_num(&stmts[1]), ("Z".to_string(), 1));
}

fn color_node(r: i64, g: i64, b: i64, a: i64) -> Node {
    Node::Color(Color {
        r: Box::new(Node::Num(r)),
        g: Box::new(Node::Num(g)),
        b: Box::new(Node::Num(b)),
        a: Box::new(Node::Num(a)),
    })
}

#[test]
fn color_channel_256_is_rejected() {
    let b = show(vec![set_value("SetTextColor", vec![color_node(256, 0, 0, 255)])]);
    let table = ImportTable::new();
    let err = transform_block(&b, &table).unwrap_err();
    assert_eq!(err, CompileErr::InvalidColorChannel);
}

#[test]
fn color_channel_negative_is_rejected() {
    let b = show(vec![set_value("SetTextColor", vec![color_node(0, -1, 0, 255)])]);
    let table = ImportTable::new();
    let err = transform_block(&b, &table).unwrap_err();
    assert_eq!(err, CompileErr::InvalidColorChannel);
}

#[test]
fn color_channel_255_resolves_and_renders() {
    let b = show(vec![set_value("SetTextColor", vec![color_node(255, 0, 10, 255)])]);
    let table = ImportTable::new();
    let stmts = block_statements(transform_block(&b, &table).unwrap().unwrap());
    match &stmts[0] {
        TransformedNode::SetValueStmt(s) => {
            assert!(matches!(
                s.values[0],
                ScopeValue::Col(PlainColor { r: 255, g: 0, b: 10, a: 255 })
            ));
            assert_eq!(s.render(), "SetTextColor 255 0 10 255\n");
        },
        other => panic!("expected a value statement, got {:?}", other),
    }
}

#[test]
fn color_transform_directly() {
    let c = Color {
        r: Box::new(Node::Num(1)),
        g: Box::new(Node::Num(2)),
        b: Box::new(Node::Num(3)),
        a: Box::new(Node::Num(4)),
    };
    let scopes = ScopeData::new();
    let t = c.transform(&scopes).unwrap().unwrap();
    assert!(matches!(
        t,
        TransformedNode::Value(ScopeValue::Col(PlainColor { r: 1, g: 2, b: 3, a: 4 }))
    ));
}

#[test]
fn import_splices_at_its_position() {
    let mut table = ImportTable::new();
    table.add("lib.filter".to_string(), vec![set_num("P", 10), set_num("Q", 20)]);
    let b = show(vec![
        set_num("M", 1),
        Node::Block(Block::Import("lib.filter".to_string())),
        set_num("N", 2),
    ]);
    let stmts = block_statements(transform_block(&b, &table).unwrap().unwrap());
    let names: Vec<(String, i64)> = stmts.iter().map(stmt_name_and_num).collect();
    assert_eq!(
        names,
        vec![
            ("M".to_string(), 1),
            ("P".to_string(), 10),
            ("Q".to_string(), 20),
            ("N".to_string(), 2),
        ]
    );
}

#[test]
fn import_resolves_independently_of_local_scope() {
    // the imported document sees the top-level scope, not the importing
    // block's local bindings
    let mut table = ImportTable::new();
    table.add("lib.filter".to_string(), vec![set_value("P", vec![reference("x")])]);
    let doc = vec![
        var_def("x", Node::Num(9)),
        Node::Block(show(vec![
            var_def("x", Node::Num(1)),
            Node::Block(Block::Import("lib.filter".to_string())),
        ])),
    ];
    let out = transform_root(&doc, &table).unwrap();
    let inner = match &out[0] {
        TransformedNode::Block(PlainBlock::Show(inner)) => inner,
        other => panic!("expected a block, got {:?}", other),
    };
    assert_eq!(stmt_name_and_num(&inner[0]), ("P".to_string(), 9));
}

#[test]
fn missing_import_is_an_io_error() {
    let table = ImportTable::new();
    let b = Block::Import("absent.filter".to_string());
    let err = transform_block(&b, &table).unwrap_err();
    assert_eq!(err, CompileErr::IoError("absent.filter".to_string()));
}

#[test]
fn import_cycle_is_detected() {
    let mut table = ImportTable::new();
    table.add("a".to_string(), vec![Node::Block(Block::Import("b".to_string()))]);
    table.add("b".to_string(), vec![Node::Block(Block::Import("a".to_string()))]);
    let b = Block::Import("a".to_string());
    let err = transform_block(&b, &table).unwrap_err();
    assert_eq!(err, CompileErr::ImportCycle("a".to_string()));
}

#[test]
fn unresolved_reference_aborts_whole_block() {
    let b = show(vec![set_num("A", 1), set_value("B", vec![reference("missing")])]);
    let table = ImportTable::new();
    let err = transform_block(&b, &table).unwrap_err();
    assert_eq!(err, CompileErr::UnresolvedReference("missing".to_string()));
}

#[test]
fn statement_as_value_is_unknown_error() {
    let b = show(vec![set_value("A", vec![Node::Block(show(vec![]))])]);
    let table = ImportTable::new();
    let err = transform_block(&b, &table).unwrap_err();
    assert_eq!(err, CompileErr::Unknown);
}

#[test]
fn var_definitions_leave_no_statement() {
    let b = show(vec![var_def("x", Node::Num(1)), set_value("A", vec![reference("x")])]);
    let table = ImportTable::new();
    let stmts = block_statements(transform_block(&b, &table).unwrap().unwrap());
    assert_eq!(stmts.len(), 1);
    assert_eq!(stmt_name_and_num(&stmts[0]), ("A".to_string(), 1));
}

#[test]
fn scope_lookup_walks_outward() {
    let mut scopes = ScopeData::new();
    scopes.define("a".to_string(), ScopeValue::Num(1));
    scopes.push_child();
    scopes.define("b".to_string(), ScopeValue::Num(2));
    assert!(matches!(scopes.lookup(&"a".to_string()), Some(ScopeValue::Num(1))));
    assert!(matches!(scopes.lookup(&"b".to_string()), Some(ScopeValue::Num(2))));
    assert!(scopes.lookup(&"c".to_string()).is_none());
    scopes.pop_child();
    assert!(scopes.lookup(&"b".to_string()).is_none());
}

#[test]
fn scope_define_overwrites_in_place() {
    let mut scopes = ScopeData::new();
    scopes.define("a".to_string(), ScopeValue::Num(1));
    scopes.define("a".to_string(), ScopeValue::Num(2));
    assert!(matches!(scopes.lookup(&"a".to_string()), Some(ScopeValue::Num(2))));
}

#[test]
fn value_statement_identity_is_its_name() {
    let a = PlainSetValueStatement { name: "A".to_string(), values: vec![ScopeValue::Num(1)] };
    let b = PlainSetValueStatement { name: "A".to_string(), values: vec![ScopeValue::Num(9)] };
    let c = PlainSetValueStatement { name: "B".to_string(), values: vec![ScopeValue::Num(1)] };
    assert!(a == b);
    assert!(!(a == c));
}

#[test]
fn round_trip_is_stable() {
    // resolve a document, read its rendered statements back as literal
    // raw statements, and resolve again: the output must not change
    let doc = vec![
        var_def("x", Node::Num(4)),
        Node::Block(show(vec![
            set_num("A", 1),
            condition("ItemLevel", ComparisonOperator::Gt, 10),
            set_value("B", vec![reference("x")]),
            set_num("A", 3),
        ])),
    ];
    let table = ImportTable::new();
    let once = transform_root(&doc, &table).unwrap();
    let rendered_once = filterlang::render::render_document(&once);
    let read_back: Vec<Node> = once.iter().map(raw_of).collect();
    let twice = transform_root(&read_back, &table).unwrap();
    let rendered_twice = filterlang::render::render_document(&twice);
    assert_eq!(rendered_once, rendered_twice);
    assert_eq!(rendered_once, "Show\nA 3\nItemLevel > 10\nB 4\n");
}

fn raw_of(t: &TransformedNode) -> Node {
    match t {
        TransformedNode::SetValueStmt(s) => Node::SetValue(SetValueStatement {
            name: s.name.clone(),
            values: s.values.iter().map(raw_value_of).collect(),
        }),
        TransformedNode::ConditionStmt(c) => Node::Condition(ConditionStatement {
            name: c.name.clone(),
            condition: Condition {
                value: Box::new(raw_value_of(&c.condition.value)),
                operator: c.condition.operator,
            },
        }),
        TransformedNode::Block(PlainBlock::Show(ns)) => {
            Node::Block(Block::Show(ns.iter().map(raw_of).collect()))
        },
        TransformedNode::Block(PlainBlock::Hide(ns)) => {
            Node::Block(Block::Hide(ns.iter().map(raw_of).collect()))
        },
        other => panic!("not a renderable statement: {:?}", other),
    }
}

fn raw_value_of(v: &ScopeValue) -> Node {
    match v {
        ScopeValue::Num(n) => Node::Num(*n),
        ScopeValue::Str(s) => Node::StrLit(s.clone()),
        ScopeValue::Col(c) => Node::Color(Color {
            r: Box::new(Node::Num(c.r as i64)),
            g: Box::new(Node::Num(c.g as i64)),
            b: Box::new(Node::Num(c.b as i64)),
            a: Box::new(Node::Num(c.a as i64)),
        }),
    }
}

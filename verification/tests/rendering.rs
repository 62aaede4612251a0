use filterlang::ast::{ComparisonOperator, Condition, ConditionStatement, Node, SetValueStatement};
use filterlang::resolved::{
    PlainBlock, PlainCondition, PlainConditionStatement, PlainSetValueStatement, TransformedNode,
};
use filterlang::scope::{PlainColor, ScopeData, ScopeValue};

#[test]
fn operators_render_as_their_symbols() {
    assert_eq!(ComparisonOperator::Eql.render(), "=");
    assert_eq!(ComparisonOperator::Lt.render(), "<");
    assert_eq!(ComparisonOperator::Lte.render(), "<=");
    assert_eq!(ComparisonOperator::Gt.render(), ">");
    assert_eq!(ComparisonOperator::Gte.render(), ">=");
}

#[test]
fn value_statement_renders_name_and_values() {
    let s = PlainSetValueStatement {
        name: "BaseType".to_string(),
        values: vec![ScopeValue::Str("Scroll".to_string()), ScopeValue::Num(-12)],
    };
    assert_eq!(s.render(), "BaseType Scroll -12\n");
}

#[test]
fn condition_statement_renders_operator_between() {
    let c = PlainConditionStatement {
        name: "ItemLevel".to_string(),
        condition: PlainCondition { value: ScopeValue::Num(65), operator: ComparisonOperator::Gte },
    };
    assert_eq!(c.render(), "ItemLevel >= 65\n");
}

#[test]
fn block_renders_keyword_then_lines() {
    let b = PlainBlock::Hide(vec![
        TransformedNode::SetValueStmt(PlainSetValueStatement {
            name: "Width".to_string(),
            values: vec![ScopeValue::Num(2)],
        }),
        TransformedNode::ConditionStmt(PlainConditionStatement {
            name: "Height".to_string(),
            condition: PlainCondition {
                value: ScopeValue::Num(3),
                operator: ComparisonOperator::Lt,
            },
        }),
    ]);
    assert_eq!(b.render(), "Hide\nWidth 2\nHeight < 3\n");
}

#[test]
fn color_renders_four_channels() {
    let s = PlainSetValueStatement {
        name: "SetBorderColor".to_string(),
        values: vec![ScopeValue::Col(PlainColor { r: 200, g: 0, b: 55, a: 255 })],
    };
    assert_eq!(s.render(), "SetBorderColor 200 0 55 255\n");
}

#[test]
fn numbers_render_in_decimal() {
    let s = PlainSetValueStatement {
        name: "N".to_string(),
        values: vec![
            ScopeValue::Num(0),
            ScopeValue::Num(10),
            ScopeValue::Num(305),
            ScopeValue::Num(-1),
        ],
    };
    assert_eq!(s.render(), "N 0 10 305 -1\n");
}

#[test]
fn condition_transform_keeps_operator_unevaluated() {
    let stmt = ConditionStatement {
        name: "Quality".to_string(),
        condition: Condition { value: Box::new(Node::Num(15)), operator: ComparisonOperator::Lte },
    };
    let scopes = ScopeData::new();
    let t = stmt.transform(&scopes).unwrap().unwrap();
    match t {
        TransformedNode::ConditionStmt(c) => {
            assert_eq!(c.name, "Quality");
            assert!(matches!(c.condition.operator, ComparisonOperator::Lte));
            assert!(matches!(c.condition.value, ScopeValue::Num(15)));
        },
        other => panic!("expected a condition statement, got {:?}", other),
    }
}

#[test]
fn set_value_transform_resolves_all_values() {
    let stmt = SetValueStatement {
        name: "SocketGroup".to_string(),
        values: vec![Node::StrLit("RGB".to_string()), Node::Num(3)],
    };
    let scopes = ScopeData::new();
    let t = stmt.transform(&scopes).unwrap().unwrap();
    match t {
        TransformedNode::SetValueStmt(s) => {
            assert_eq!(s.name, "SocketGroup");
            assert_eq!(s.values.len(), 2);
            assert!(matches!(&s.values[0], ScopeValue::Str(v) if v == "RGB"));
            assert!(matches!(s.values[1], ScopeValue::Num(3)));
        },
        other => panic!("expected a value statement, got {:?}", other),
    }
}

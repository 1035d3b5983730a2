//! Module manifests.

use odoo_lint::ast::{
    Base, ClassDef, DictItem, Expr, ExprCall, ExprDict, ExprList, FunctionDef, Identifier,
    ScopeKind, UnaryOp,
};
use odoo_lint::manifest::{
    is_dict_literal_evaluable, is_literal_evaluable_expr, is_manifest_root_dict,
    manifest_anchor_range, manifest_item, manifest_string_item, MANIFEST_DATA_KEYS,
};
use odoo_lint::path::{PathComponent, SourcePath};
use odoo_lint::text::TextRange;

fn range(start: u32, end: u32) -> TextRange {
    TextRange { start, end }
}

fn string(start: u32, text: &str) -> Expr {
    Expr::StringLiteral { range: range(start, start + 2 + text.len() as u32), text: text.to_string() }
}

fn number() -> Expr {
    Expr::NumberLiteral { range: range(0, 1) }
}

fn name(id: &str) -> Expr {
    Expr::Name { range: range(0, 1), id: id.to_string() }
}

fn dict(items: Vec<DictItem>) -> ExprDict {
    ExprDict { range: range(5, 90), items }
}

fn pair(key: Expr, value: Expr) -> DictItem {
    DictItem { key: Some(key), value }
}

fn manifest() -> ExprDict {
    dict(vec![
        DictItem { key: None, value: name("base") },
        pair(name("name"), string(20, "not this")),
        pair(string(30, "version"), number()),
        pair(string(40, "name"), string(48, "Sales")),
        pair(string(60, "name"), string(68, "Again")),
    ])
}

#[test]
fn item_is_the_first_with_the_key() {
    let manifest = manifest();
    let (key, value) = manifest_item(&manifest, "name").unwrap();
    assert_eq!(key.range(), range(40, 46));
    assert_eq!(value.range(), range(48, 55));
    assert!(manifest_item(&manifest, "license").is_none());
    assert!(manifest_item(&dict(vec![]), "name").is_none());
}

#[test]
fn string_item_takes_a_string_value() {
    let manifest = manifest();
    let (key, text) = manifest_string_item(&manifest, "name").unwrap();
    assert_eq!(key.range(), range(40, 46));
    assert_eq!(text, "Sales");
    assert!(manifest_string_item(&manifest, "version").is_none());
    assert!(manifest_string_item(&manifest, "license").is_none());
    // A later item under the same key does not stand in for the first.
    let twice = dict(vec![pair(string(10, "k"), number()), pair(string(20, "k"), string(25, "v"))]);
    assert!(manifest_string_item(&twice, "k").is_none());
}

#[test]
fn anchor_is_the_name_key_or_the_brace() {
    assert_eq!(manifest_anchor_range(&manifest()), range(40, 46));
    assert_eq!(manifest_anchor_range(&dict(vec![])), range(5, 6));
}

#[test]
fn constants_are_evaluable() {
    let place = range(0, 1);
    assert!(is_literal_evaluable_expr(&string(0, "a")));
    assert!(is_literal_evaluable_expr(&Expr::BytesLiteral { range: place }));
    assert!(is_literal_evaluable_expr(&number()));
    assert!(is_literal_evaluable_expr(&Expr::BooleanLiteral { range: place }));
    assert!(is_literal_evaluable_expr(&Expr::NoneLiteral { range: place }));
    assert!(is_literal_evaluable_expr(&Expr::EllipsisLiteral { range: place }));
    assert!(!is_literal_evaluable_expr(&name("x")));
    assert!(!is_literal_evaluable_expr(&Expr::Other { range: place }));
    assert!(!is_literal_evaluable_expr(&Expr::Call(ExprCall {
        range: place,
        func: Box::new(name("_")),
    })));
    assert!(!is_literal_evaluable_expr(&Expr::Subscript {
        range: place,
        value: Box::new(name("x")),
    }));
    assert!(!is_literal_evaluable_expr(&Expr::Attribute {
        range: place,
        value: Box::new(name("x")),
        attr: Identifier { name: "y".to_string(), range: place },
    }));
}

#[test]
fn only_numbers_take_a_sign() {
    let signed = |op: UnaryOp, operand: Expr| Expr::UnaryOp {
        range: range(0, 2),
        op,
        operand: Box::new(operand),
    };
    assert!(is_literal_evaluable_expr(&signed(UnaryOp::USub, number())));
    assert!(is_literal_evaluable_expr(&signed(UnaryOp::UAdd, number())));
    assert!(!is_literal_evaluable_expr(&signed(UnaryOp::Not, number())));
    assert!(!is_literal_evaluable_expr(&signed(UnaryOp::Invert, number())));
    assert!(!is_literal_evaluable_expr(&signed(UnaryOp::USub, string(0, "a"))));
    assert!(!is_literal_evaluable_expr(&signed(UnaryOp::USub, signed(UnaryOp::USub, number()))));
}

#[test]
fn displays_are_evaluable_if_all_in_them_is() {
    let place = range(0, 9);
    let nested = |leaf: Expr| {
        Expr::Dict(dict(vec![pair(
            string(0, "assets"),
            Expr::List(ExprList {
                range: place,
                elts: vec![
                    Expr::Tuple { range: place, elts: vec![] },
                    Expr::SetDisplay { range: place, elts: vec![number(), leaf] },
                ],
            }),
        )]))
    };
    assert!(is_literal_evaluable_expr(&nested(number())));
    assert!(!is_literal_evaluable_expr(&nested(name("x"))));
    assert!(!is_dict_literal_evaluable(&dict(vec![pair(name("k"), number())])));
    assert!(!is_dict_literal_evaluable(&dict(vec![DictItem { key: None, value: number() }])));
    assert!(is_dict_literal_evaluable(&dict(vec![])));
}

#[test]
fn root_dict_of_a_manifest() {
    let file = |name: &str| SourcePath {
        components: vec![PathComponent::Normal(name.as_bytes().to_vec())],
    };
    let plain = dict(vec![pair(string(0, "name"), string(9, "x"))]);
    let computed = dict(vec![pair(string(0, "name"), name("x"))]);
    let manifest = file("__manifest__.py");
    assert!(is_manifest_root_dict(&ScopeKind::Module, false, &plain, &manifest));
    assert!(!is_manifest_root_dict(&ScopeKind::Module, true, &plain, &manifest));
    assert!(!is_manifest_root_dict(&ScopeKind::Module, false, &computed, &manifest));
    assert!(!is_manifest_root_dict(&ScopeKind::Module, false, &plain, &file("models.py")));
    let function = ScopeKind::Function(FunctionDef { name: "f".to_string() });
    assert!(!is_manifest_root_dict(&function, false, &plain, &manifest));
    let class = ScopeKind::Class(ClassDef {
        body: vec![],
        arguments: Some(vec![Base { qualified_name: None, builtin: None }]),
    });
    assert!(!is_manifest_root_dict(&class, false, &plain, &manifest));
}

#[test]
fn data_keys() {
    assert_eq!(
        MANIFEST_DATA_KEYS,
        ["data", "demo", "demo_xml", "init_xml", "test", "update_xml"]
    );
}

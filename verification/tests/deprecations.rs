//! Versions and calls of deprecated methods.

use odoo_lint::ast::{
    Base, ClassDef, Expr, ExprCall, FunctionDef, Identifier, ScopeKind, Scopes, Stmt,
};
use odoo_lint::deprecated::{
    deprecated_odoo_method_call, deprecated_orm_methods, is_environment_subscript, Applicability,
    DeprecatedOdooMethodCall, Diagnostic, RECORDSET_PASSTHROUGH_METHODS,
};
use odoo_lint::path::{ManifestProbe, PathComponent, SourcePath};
use odoo_lint::text::TextRange;
use odoo_lint::version::{odoo_version_applies, OdooVersion};

const PLACE: TextRange = TextRange { start: 0, end: 1 };
const ATTR: TextRange = TextRange { start: 30, end: 47 };

fn version(major: u32) -> OdooVersion {
    OdooVersion::new(major, 0)
}

fn name(id: &str) -> Expr {
    Expr::Name { range: PLACE, id: id.to_string() }
}

fn attribute(value: Expr, attr: &str) -> Expr {
    Expr::Attribute {
        range: PLACE,
        value: Box::new(value),
        attr: Identifier { name: attr.to_string(), range: ATTR },
    }
}

fn call(func: Expr) -> Expr {
    Expr::Call(ExprCall { range: PLACE, func: Box::new(func) })
}

/// `request.env["res.partner"]`
fn environment() -> Expr {
    Expr::Subscript { range: PLACE, value: Box::new(attribute(name("request"), "env")) }
}

fn calls(receiver: Expr, method: &str) -> ExprCall {
    ExprCall { range: PLACE, func: Box::new(attribute(receiver, method)) }
}

fn function(name: &str) -> ScopeKind {
    ScopeKind::Function(FunctionDef { name: name.to_string() })
}

fn model() -> ScopeKind {
    ScopeKind::Class(ClassDef {
        body: vec![Stmt::Assign {
            targets: vec![name("_name")],
            value: Expr::StringLiteral { range: PLACE, text: "x".to_string() },
        }],
        arguments: Some(vec![Base {
            qualified_name: Some(vec![
                "odoo".to_string(),
                "models".to_string(),
                "Model".to_string(),
            ]),
            builtin: None,
        }]),
    })
}

fn in_model(method: &str) -> Scopes {
    Scopes { current: function(method), enclosing: vec![model(), ScopeKind::Module] }
}

fn in_function() -> Scopes {
    Scopes { current: function("route"), enclosing: vec![ScopeKind::Module] }
}

fn file(names: &[&str]) -> SourcePath {
    SourcePath {
        components: names
            .iter()
            .map(|name| PathComponent::Normal(name.as_bytes().to_vec()))
            .collect(),
    }
}

fn report(
    configured: Option<OdooVersion>,
    scopes: &Scopes,
    receiver: Expr,
    method: &str,
) -> Option<Diagnostic> {
    let path = file(&["sale", "models", "order.py"]);
    let probes = [
        ManifestProbe { manifest: false, openerp: false },
        ManifestProbe { manifest: true, openerp: false },
    ];
    deprecated_odoo_method_call(configured, scopes, &calls(receiver, method), &path, &probes)
}

#[test]
fn versions_compare_by_both_numbers() {
    assert!(version(18).at_least(&version(18)));
    assert!(version(19).at_least(&OdooVersion::new(18, 5)));
    assert!(!OdooVersion::new(18, 5).at_least(&version(19)));
    assert!(OdooVersion::new(18, 1).at_least(&version(18)));
    assert!(!version(18).at_least(&OdooVersion::new(18, 1)));
}

#[test]
fn versions_in_text() {
    assert_eq!(version(18).to_text(), "18.0");
    assert_eq!(OdooVersion::new(0, 4294967295).to_text(), "0.4294967295");
    assert_eq!(OdooVersion::new(105, 90).to_text(), "105.90");
}

#[test]
fn version_scopes() {
    let (low, high) = (Some(version(17)), Some(version(19)));
    assert!(odoo_version_applies(None, low, high));
    assert!(odoo_version_applies(Some(version(17)), low, high));
    assert!(odoo_version_applies(Some(version(19)), low, high));
    assert!(!odoo_version_applies(Some(version(16)), low, high));
    assert!(!odoo_version_applies(Some(version(20)), low, high));
    assert!(odoo_version_applies(Some(version(8)), None, high));
    assert!(odoo_version_applies(Some(version(99)), low, None));
    assert!(odoo_version_applies(Some(version(99)), None, None));
    // What applies at both ends applies between.
    assert!(odoo_version_applies(Some(version(18)), low, high));
}

#[test]
fn removed_and_deprecated_messages() {
    let mut violation = DeprecatedOdooMethodCall {
        name: "toggle_active".to_string(),
        since: version(19),
        removed: None,
        replacement: "Use another.".to_string(),
        rename: None,
    };
    assert_eq!(violation.message(), "`toggle_active` is deprecated since Odoo 19.0. Use another.");
    assert_eq!(violation.fix_title(), None);
    violation.removed = Some(version(20));
    violation.rename = Some("archive".to_string());
    assert_eq!(
        violation.message(),
        "`toggle_active` was removed in Odoo 20.0 (deprecated since 19.0). \
         The call raises `AttributeError`. Use another."
    );
    assert_eq!(violation.fix_title(), Some("Replace with `archive`".to_string()));
}

#[test]
fn the_table() {
    let methods = deprecated_orm_methods();
    let names: Vec<&str> = methods.iter().map(|method| method.name).collect();
    assert_eq!(
        names,
        [
            "check_access_rights",
            "check_access_rule",
            "_filter_access_rules",
            "_filter_access_rules_python",
            "_check_recursion",
            "_check_m2m_recursion",
            "read_group",
            "check_field_access_rights",
            "toggle_active",
        ]
    );
    let renames: Vec<Option<&str>> = methods.iter().map(|method| method.rename).collect();
    assert_eq!(
        renames,
        [
            None,
            Some("check_access"),
            Some("_filtered_access"),
            Some("_filtered_access"),
            None,
            None,
            None,
            None,
            None,
        ]
    );
    assert_eq!(
        methods[4].replacement,
        "Use `not _has_cycle(...)` instead \u{2014} the result is inverted."
    );
    assert_eq!(
        methods[0].replacement,
        "Use `check_access` instead, or `has_access` where a boolean is needed; \
         an override belongs in `_check_access`."
    );
    for rename in renames.iter().flatten() {
        assert!(!names.contains(rename));
    }
    for (i, method) in methods.iter().enumerate() {
        assert_eq!(method.since, version(if i < 6 { 18 } else { 19 }));
        assert_eq!(method.removed, if i == 6 { None } else { Some(version(20)) });
        assert_eq!(method.until, if i == 6 { Some(version(19)) } else { None });
    }
}

#[test]
fn environment_subscripts() {
    let sudo = |receiver: Expr| call(attribute(receiver, "sudo"));
    assert!(is_environment_subscript(&environment()));
    assert!(is_environment_subscript(&sudo(call(attribute(environment(), "with_user")))));
    assert!(!is_environment_subscript(&call(attribute(environment(), "get_param"))));
    assert!(!is_environment_subscript(&sudo(call(attribute(environment(), "search")))));
    assert!(!is_environment_subscript(&attribute(environment(), "sudo")));
    assert!(!is_environment_subscript(&sudo(name("self"))));
    assert!(!is_environment_subscript(&Expr::Subscript {
        range: PLACE,
        value: Box::new(name("env")),
    }));
    assert!(!is_environment_subscript(&call(name("sudo"))));
    assert_eq!(
        RECORDSET_PASSTHROUGH_METHODS,
        ["exists", "sudo", "with_company", "with_context", "with_env", "with_user"]
    );
}

#[test]
fn calls_in_models_are_reported_whatever_the_receiver() {
    let scopes = in_model("action");
    let found = report(None, &scopes, name("orders"), "toggle_active").unwrap();
    assert_eq!(found.range, ATTR);
    assert_eq!(found.violation.name, "toggle_active");
    assert_eq!(found.violation.since, version(19));
    assert_eq!(found.violation.removed, None);
    assert!(found.fix.is_none());
    assert!(report(None, &scopes, name("self"), "search").is_none());
}

#[test]
fn bare_calls_are_no_orm_calls() {
    let path = file(&["order.py"]);
    let bare = ExprCall { range: PLACE, func: Box::new(name("read_group")) };
    assert!(deprecated_odoo_method_call(None, &in_model("f"), &bare, &path, &[]).is_none());
}

#[test]
fn a_rename_is_an_unsafe_fix() {
    let found = report(None, &in_model("f"), name("self"), "check_access_rule").unwrap();
    assert_eq!(found.violation.rename, Some("check_access".to_string()));
    let fix = found.fix.unwrap();
    assert_eq!(fix.applicability, Applicability::Unsafe);
    assert_eq!(fix.edit.range, ATTR);
    assert_eq!(fix.edit.content, Some("check_access".to_string()));
}

#[test]
fn the_configured_version_decides_the_wording() {
    let at = |configured: Option<OdooVersion>| {
        report(configured, &in_model("f"), name("self"), "_check_recursion")
            .map(|found| found.violation.removed)
    };
    assert_eq!(at(Some(version(17))), None);
    assert_eq!(at(Some(version(18))), Some(None));
    assert_eq!(at(Some(OdooVersion::new(19, 9))), Some(None));
    assert_eq!(at(Some(version(20))), Some(Some(version(20))));
    assert_eq!(at(Some(version(21))), Some(Some(version(20))));
    assert_eq!(at(None), Some(None));
}

#[test]
fn read_group_is_reported_in_one_version_only() {
    let at = |configured: Option<OdooVersion>| {
        report(configured, &in_model("f"), name("self"), "read_group").is_some()
    };
    assert!(!at(Some(version(18))));
    assert!(at(Some(version(19))));
    assert!(!at(Some(version(20))));
    assert!(at(None));
}

#[test]
fn receivers_outside_models_have_to_be_environment_subscripts() {
    let scopes = in_function();
    assert!(report(None, &scopes, environment(), "check_access_rights").is_some());
    assert!(report(None, &scopes, name("partner"), "check_access_rights").is_none());
    // Not directly in a function.
    let module = Scopes { current: ScopeKind::Module, enclosing: vec![] };
    assert!(report(None, &module, environment(), "check_access_rights").is_none());
    let lambda = Scopes { current: ScopeKind::Other, enclosing: vec![function("f"), model()] };
    assert!(report(None, &lambda, environment(), "check_access_rights").is_none());
}

#[test]
fn tests_and_migrations_are_spared_outside_models() {
    let test = file(&["sale", "tests", "test_order.py"]);
    let probes = [
        ManifestProbe { manifest: false, openerp: false },
        ManifestProbe { manifest: true, openerp: false },
    ];
    let call = calls(environment(), "check_access_rights");
    assert!(deprecated_odoo_method_call(None, &in_function(), &call, &test, &probes).is_none());
    assert!(deprecated_odoo_method_call(None, &in_model("f"), &call, &test, &probes).is_some());
    // Nor does one above the addon.
    let nested = file(&["tests", "sale", "models", "order.py"]);
    assert!(deprecated_odoo_method_call(None, &in_function(), &call, &nested, &probes).is_some());
    // Outside an addon a directory called `tests` says nothing.
    assert!(deprecated_odoo_method_call(None, &in_function(), &call, &test, &[]).is_some());
}

#[test]
fn overrides_call_super() {
    let parent = || call(name("super"));
    assert!(report(None, &in_model("toggle_active"), parent(), "toggle_active").is_none());
    assert!(report(None, &in_model("other"), parent(), "toggle_active").is_some());
    assert!(report(None, &in_model("toggle_active"), name("self"), "toggle_active").is_some());
}

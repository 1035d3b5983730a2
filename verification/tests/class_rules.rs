//! Models, controllers and what classes declare.

use odoo_lint::ast::{
    dotted_name, odoo_field_type, Base, ClassDef, Expr, ExprCall, ExprList, FunctionDef,
    Identifier, Stmt, CURSOR_EXPRS,
};
use odoo_lint::classes::{
    class_declares_model, class_declares_model_attribute, class_defines_method,
    file_imports_odoo_http, inherits_non_builtin, is_builtin_or_test_base,
    is_odoo_controller_class, is_odoo_model_class,
};
use odoo_lint::path::{ManifestProbe, PathComponent, SourcePath};
use odoo_lint::text::TextRange;

const PLACE: TextRange = TextRange { start: 0, end: 1 };
const NONE: ManifestProbe = ManifestProbe { manifest: false, openerp: false };
const FOUND: ManifestProbe = ManifestProbe { manifest: true, openerp: false };

fn name(id: &str) -> Expr {
    Expr::Name { range: PLACE, id: id.to_string() }
}

fn string(text: &str) -> Expr {
    Expr::StringLiteral { range: PLACE, text: text.to_string() }
}

fn attribute(value: Expr, attr: &str) -> Expr {
    Expr::Attribute {
        range: PLACE,
        value: Box::new(value),
        attr: Identifier { name: attr.to_string(), range: PLACE },
    }
}

fn call(func: Expr) -> Expr {
    Expr::Call(ExprCall { range: PLACE, func: Box::new(func) })
}

fn assign(target: &str, value: Expr) -> Stmt {
    Stmt::Assign { targets: vec![name(target)], value }
}

fn annotated(target: &str, value: Option<Expr>) -> Stmt {
    Stmt::AnnAssign { target: name(target), value }
}

fn segments(dotted: &str) -> Vec<String> {
    dotted.split('.').map(|segment| segment.to_string()).collect()
}

fn base(dotted: &str) -> Base {
    Base { qualified_name: Some(segments(dotted)), builtin: None }
}

fn unresolved() -> Base {
    Base { qualified_name: None, builtin: None }
}

fn builtin(name: &str) -> Base {
    Base { qualified_name: Some(vec![String::new(), name.to_string()]), builtin: Some(name.to_string()) }
}

fn class(body: Vec<Stmt>, bases: Vec<Base>) -> ClassDef {
    ClassDef { body, arguments: Some(bases) }
}

fn path(names: &[&str]) -> SourcePath {
    SourcePath {
        components: names
            .iter()
            .map(|name| PathComponent::Normal(name.as_bytes().to_vec()))
            .collect(),
    }
}

#[test]
fn dotted_names_are_chains_from_a_name() {
    let cursor = attribute(attribute(name("self"), "env"), "cr");
    assert_eq!(dotted_name(&cursor), Some("self.env.cr".to_string()));
    assert_eq!(dotted_name(&name("cr")), Some("cr".to_string()));
    assert_eq!(dotted_name(&attribute(call(name("f")), "cr")), None);
    assert_eq!(dotted_name(&string("cr")), None);
    assert_eq!(CURSOR_EXPRS, ["cr", "self._cr", "self.cr", "self.env.cr"]);
    assert!(CURSOR_EXPRS.contains(&dotted_name(&cursor).unwrap().as_str()));
}

#[test]
fn field_types() {
    assert_eq!(odoo_field_type(&attribute(name("fields"), "Many2one")), Some("Many2one"));
    assert_eq!(odoo_field_type(&attribute(name("models"), "Model")), None);
    assert_eq!(odoo_field_type(&attribute(attribute(name("odoo"), "fields"), "Char")), None);
    assert_eq!(odoo_field_type(&name("fields")), None);
}

#[test]
fn model_attributes() {
    let declares = |body: Vec<Stmt>| class_declares_model_attribute(&class(body, vec![]));
    assert!(declares(vec![Stmt::Other, assign("_name", string("x"))]));
    assert!(declares(vec![assign("_inherit", name("anything"))]));
    assert!(declares(vec![annotated("_name", Some(string("x")))]));
    // An annotation without a value assigns nothing.
    assert!(!declares(vec![annotated("_name", None)]));
    // Unpacking assigns each name in the target.
    let unpack = |targets: Vec<Expr>| Stmt::Assign {
        targets: vec![Expr::Tuple { range: PLACE, elts: targets }],
        value: name("pair"),
    };
    assert!(declares(vec![unpack(vec![name("a"), name("_name")])]));
    assert!(!declares(vec![unpack(vec![name("a"), name("b")])]));
    assert!(declares(vec![unpack(vec![
        name("a"),
        Expr::Starred {
            range: PLACE,
            value: Box::new(Expr::List(ExprList { range: PLACE, elts: vec![name("_inherit")] })),
        },
    ])]));
    assert!(declares(vec![Stmt::Assign {
        targets: vec![name("a"), name("_inherit")],
        value: string("x"),
    }]));
    assert!(!declares(vec![assign("_inherits", string("x"))]));
    assert!(!declares(vec![Stmt::Assign {
        targets: vec![attribute(name("self"), "_name")],
        value: string("x"),
    }]));
    assert!(!declares(vec![Stmt::FunctionDef(FunctionDef { name: "_name".to_string() })]));
    assert!(!declares(vec![]));
}

#[test]
fn models_take_both_halves() {
    let named = || vec![assign("_name", string("sale.order"))];
    assert!(is_odoo_model_class(&class(named(), vec![unresolved(), base("odoo.models.Model")])));
    assert!(is_odoo_model_class(&class(named(), vec![base("odoo.models.TransientModel")])));
    assert!(is_odoo_model_class(&class(named(), vec![base("odoo.models.AbstractModel")])));
    assert!(!is_odoo_model_class(&class(vec![], vec![base("odoo.models.Model")])));
    assert!(!is_odoo_model_class(&class(named(), vec![base("models.Model")])));
    assert!(!is_odoo_model_class(&class(named(), vec![base("odoo.models.Model.inner")])));
    assert!(!is_odoo_model_class(&class(named(), vec![base("odoo.models.BaseModel")])));
    assert!(!is_odoo_model_class(&class(named(), vec![unresolved()])));
    assert!(!is_odoo_model_class(&ClassDef { body: named(), arguments: None }));
}

#[test]
fn http_imports() {
    let imports = |dotted: &[&str]| {
        let mut bindings: Vec<Option<Vec<String>>> =
            dotted.iter().map(|name| Some(segments(name))).collect();
        bindings.push(None);
        file_imports_odoo_http(&bindings)
    };
    assert!(imports(&["os", "odoo.http"]));
    assert!(imports(&["odoo.http.request"]));
    assert!(!imports(&["odoo"]));
    assert!(!imports(&["http", "odoo.https", "werkzeug.http"]));
    assert!(!imports(&[]));
}

#[test]
fn bases_that_no_controller_has() {
    assert!(is_builtin_or_test_base(&builtin("Exception")));
    assert!(is_builtin_or_test_base(&base("odoo.tests.HttpCase")));
    assert!(is_builtin_or_test_base(&base("odoo.tests")));
    assert!(is_builtin_or_test_base(&base("unittest.TestCase")));
    assert!(is_builtin_or_test_base(&base("enum.Enum")));
    assert!(is_builtin_or_test_base(&base("abc")));
    assert!(!is_builtin_or_test_base(&base("odoo.http.Controller")));
    assert!(!is_builtin_or_test_base(&base("odoo")));
    assert!(!is_builtin_or_test_base(&Base { qualified_name: Some(vec![]), builtin: None }));
    assert!(!is_builtin_or_test_base(&unresolved()));
}

#[test]
fn controllers() {
    let http = [Some(segments("odoo.http.route"))];
    let file = path(&["sale", "controllers", "main.py"]);
    let addon = [NONE, FOUND];
    let portal = class(vec![], vec![base("odoo.addons.portal.controllers.portal.CustomerPortal")]);
    assert!(is_odoo_controller_class(&http, &portal, &file, &addon));
    // No import of `odoo.http`.
    assert!(!is_odoo_controller_class(&[None], &portal, &file, &addon));
    // No addon.
    assert!(!is_odoo_controller_class(&http, &portal, &file, &[NONE, NONE]));
    // A test, and a file elsewhere.
    let test = path(&["sale", "tests", "controllers", "main.py"]);
    assert!(!is_odoo_controller_class(&http, &portal, &test, &[NONE, NONE, FOUND]));
    let model_file = path(&["sale", "models", "main.py"]);
    assert!(!is_odoo_controller_class(&http, &portal, &model_file, &addon));
    // What lies above the addon has no part in it.
    let nested = path(&["tests", "sale", "controllers", "main.py"]);
    assert!(is_odoo_controller_class(&http, &portal, &nested, &addon));
    let misleading = path(&["controllers", "sale", "models", "main.py"]);
    assert!(!is_odoo_controller_class(&http, &portal, &misleading, &addon));
    let small = path(&["sale", "controllers.py"]);
    assert!(is_odoo_controller_class(&http, &portal, &small, &[FOUND]));
    // A model, a class without bases, and one with a builtin or test base.
    let model = class(vec![assign("_inherit", string("x"))], vec![base("odoo.models.Model")]);
    assert!(!is_odoo_controller_class(&http, &model, &file, &addon));
    let bare = ClassDef { body: vec![], arguments: None };
    assert!(!is_odoo_controller_class(&http, &bare, &file, &addon));
    assert!(!is_odoo_controller_class(&http, &class(vec![], vec![]), &file, &addon));
    let error = class(vec![], vec![unresolved(), builtin("Exception")]);
    assert!(!is_odoo_controller_class(&http, &error, &file, &addon));
}

#[test]
fn non_builtin_bases() {
    assert!(inherits_non_builtin(&class(vec![], vec![builtin("object"), unresolved()])));
    assert!(inherits_non_builtin(&class(vec![], vec![base("odoo.http.Controller")])));
    assert!(!inherits_non_builtin(&class(vec![], vec![builtin("Exception")])));
    assert!(!inherits_non_builtin(&class(vec![], vec![])));
    assert!(!inherits_non_builtin(&ClassDef { body: vec![], arguments: None }));
}

#[test]
fn methods_of_a_class() {
    let body = vec![assign("create", string("x")), Stmt::FunctionDef(FunctionDef {
        name: "write".to_string(),
    })];
    let class = class(body, vec![]);
    assert!(class_defines_method(&class, "write"));
    assert!(!class_defines_method(&class, "create"));
}

#[test]
fn declared_models() {
    let list = Expr::List(ExprList {
        range: PLACE,
        elts: vec![name("x"), string("mail.thread"), string("sale.order")],
    });
    let tuple = Expr::Tuple { range: PLACE, elts: vec![string("res.users")] };
    let class = class(
        vec![
            assign("_description", string("other")),
            assign("_name", string("my.model")),
            assign("_inherit", list),
            assign("_inherit", tuple),
            assign("_inherit", Expr::SetDisplay { range: PLACE, elts: vec![string("in.set")] }),
            annotated("_name", None),
            annotated("_name", Some(string("annotated.model"))),
        ],
        vec![],
    );
    assert!(class_declares_model(&class, "my.model"));
    assert!(class_declares_model(&class, "sale.order"));
    assert!(class_declares_model(&class, "res.users"));
    assert!(class_declares_model(&class, "annotated.model"));
    assert!(!class_declares_model(&class, "other"));
    assert!(!class_declares_model(&class, "in.set"));
    // What declares a model has the attribute that makes one.
    assert!(class_declares_model_attribute(&class));
}

#[test]
fn models_declared_by_unpacking() {
    let starred = |value: Expr| Expr::Starred { range: PLACE, value: Box::new(value) };
    let unpack = |targets: Vec<Expr>, values: Vec<Expr>| {
        class(
            vec![Stmt::Assign {
                targets: vec![Expr::Tuple { range: PLACE, elts: targets }],
                value: Expr::Tuple { range: PLACE, elts: values },
            }],
            vec![],
        )
    };
    let pair = unpack(
        vec![name("_description"), name("_name")],
        vec![string("other"), string("my.model")],
    );
    assert!(class_declares_model(&pair, "my.model"));
    assert!(!class_declares_model(&pair, "other"));
    // Python refuses an unpacking of the wrong length.
    let (target, other) = (|| name("_name"), || name("x"));
    let (model, one) = (|| string("my.model"), || Expr::NumberLiteral { range: PLACE });
    for refused in [
        unpack(vec![target(), other()], vec![model(), one(), one()]),
        unpack(vec![target(), other()], vec![model()]),
        unpack(vec![target(), starred(other()), other(), other()], vec![model(), one()]),
        unpack(vec![target(), other()], vec![model(), one(), one(), starred(other())]),
        unpack(
            vec![target(), Expr::Tuple { range: PLACE, elts: vec![other(), other()] }],
            vec![model(), one()],
        ),
    ] {
        assert!(!class_declares_model(&refused, "my.model"));
        assert!(!class_declares_model_attribute(&refused));
    }
    for accepted in [
        unpack(vec![target(), other()], vec![model(), string("my.model")]),
        unpack(vec![target(), starred(other())], vec![model()]),
        unpack(vec![target(), starred(other())], vec![model(), one(), one()]),
        unpack(vec![target(), other()], vec![model(), starred(other())]),
        unpack(
            vec![target(), Expr::Tuple { range: PLACE, elts: vec![other(), other()] }],
            vec![model(), string("ab")],
        ),
    ] {
        assert!(class_declares_model(&accepted, "my.model"));
        assert!(class_declares_model_attribute(&accepted));
    }
    // Behind a `*` nothing tells which element a target takes.
    let open = unpack(
        vec![starred(name("rest")), name("_name")],
        vec![string("other"), string("my.model")],
    );
    assert!(!class_declares_model(&open, "my.model"));
    assert!(class_declares_model_attribute(&open));
}

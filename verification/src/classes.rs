//! Models, controllers and other classes.

use vstd::prelude::*;

use crate::ast::{Base, ClassDef, Expr, Stmt};
use crate::path::{
    addon_relative_dirs, in_controller_location, in_structural_non_code_dir, ManifestProbe,
    SourcePath,
};
#[allow(unused_imports)]
use crate::path::{
    addon_depth, any_listed, is_controller_location, is_structural,
    law_answers_come_from_inside_the_addon, relative_dirs, PathComponent,
    ODOO_STRUCTURAL_NON_CODE_DIRS,
};
use crate::text::{is_listed, same_text};
#[allow(unused_imports)]
use crate::text::lists;

verus! {

/// The attributes that make a class a model.
pub const MODEL_ATTRIBUTES: [&'static str; 2] = ["_name", "_inherit"];

/// The names, below `odoo.models`, of the bases that a model derives from.
pub const MODEL_BASES: [&'static str; 3] = ["Model", "TransientModel", "AbstractModel"];

/// Modules that hold bases which no controller ever derives from.
pub const NON_CONTROLLER_MODULES: [&'static str; 3] = ["unittest", "enum", "abc"];

/// The target is the plain name of one of the [`MODEL_ATTRIBUTES`], or unpacks a value into such a
/// target.
pub open spec fn is_model_attribute(target: Expr) -> bool
    decreases target,
{
    match target {
        Expr::Name { id, .. } => lists(MODEL_ATTRIBUTES@, id@),
        Expr::Tuple { elts, .. } => exists|i: int|
            0 <= i < elts@.len() && is_model_attribute(#[trigger] elts@[i]),
        Expr::List(list) => exists|i: int|
            0 <= i < list.elts@.len() && is_model_attribute(#[trigger] list.elts@[i]),
        Expr::Starred { value, .. } => is_model_attribute(*value),
        _ => false,
    }
}

/// One of the targets is one of the [`MODEL_ATTRIBUTES`], or unpacks a value into one.
pub open spec fn any_model_attribute(targets: Seq<Expr>) -> bool {
    exists|i: int| 0 <= i < targets.len() && is_model_attribute(#[trigger] targets[i])
}

/// The elements of a tuple or list display.
pub open spec fn display_elements(value: Expr) -> Option<Seq<Expr>> {
    match value {
        Expr::Tuple { elts, .. } => Some(elts@),
        Expr::List(list) => Some(list.elts@),
        _ => None,
    }
}

/// How many of the expressions have no `*`.
pub open spec fn plain_count(exprs: Seq<Expr>) -> nat
    decreases exprs.len(),
{
    if exprs.len() == 0 {
        0
    } else {
        plain_count(exprs.drop_last()) + if exprs.last() is Starred {
            0nat
        } else {
            1nat
        }
    }
}

/// `known` values, and any number more where `more` may follow, can be unpacked into the targets:
/// each target without a `*` takes one, and one with a `*` takes what is left.
pub open spec fn fits(targets: Seq<Expr>, known: nat, more: bool) -> bool {
    &&& more || plain_count(targets) <= known
    &&& plain_count(targets) < targets.len() || known <= targets.len()
}

/// The value can be unpacked into the targets, as far as it shows: a display or a string with the
/// right number of elements can, a number, a boolean, `None` and `...` cannot, and of other values
/// nothing is known.
pub open spec fn can_unpack(targets: Seq<Expr>, value: Expr) -> bool {
    match value {
        Expr::Tuple { elts, .. } => fits(
            targets,
            plain_count(elts@),
            plain_count(elts@) < elts@.len(),
        ),
        Expr::List(list) => fits(
            targets,
            plain_count(list.elts@),
            plain_count(list.elts@) < list.elts@.len(),
        ),
        Expr::StringLiteral { text, .. } => fits(targets, text@.len(), false),
        Expr::NumberLiteral { .. } => false,
        Expr::BooleanLiteral { .. } => false,
        Expr::NoneLiteral { .. } => false,
        Expr::EllipsisLiteral { .. } => false,
        _ => true,
    }
}

/// Target `i` of an unpacking takes the element `i` of the value: there is such an element, and no
/// `*` stands among the targets or the elements up to there.
pub open spec fn unpacks_in_step(targets: Seq<Expr>, elements: Seq<Expr>, i: int) -> bool {
    &&& 0 <= i < targets.len()
    &&& i < elements.len()
    &&& forall|j: int| 0 <= j <= i ==> !((#[trigger] targets[j]) is Starred)
    &&& forall|j: int| 0 <= j <= i ==> !((#[trigger] elements[j]) is Starred)
}

/// The value can be assigned to the target, as far as it shows: where the target unpacks, the value
/// can be unpacked, and so can each element in the place of a target that unpacks.
pub open spec fn accepts(target: Expr, value: Expr) -> bool
    decreases target,
{
    match target {
        Expr::Tuple { elts, .. } => can_unpack(elts@, value) && (display_elements(value) matches Some(
            elements,
        ) ==> forall|i: int|
            0 <= i < elts@.len() && unpacks_in_step(elts@, elements, i) ==> accepts(
                #[trigger] elts@[i],
                elements[i],
            )),
        Expr::List(list) => can_unpack(list.elts@, value) && (display_elements(value) matches Some(
            elements,
        ) ==> forall|i: int|
            0 <= i < list.elts@.len() && unpacks_in_step(list.elts@, elements, i) ==> accepts(
                #[trigger] list.elts@[i],
                elements[i],
            )),
        _ => true,
    }
}

/// An assignment of the value to the target assigns one of the [`MODEL_ATTRIBUTES`].
pub open spec fn assigns_attribute(target: Expr, value: Expr) -> bool {
    is_model_attribute(target) && accepts(target, value)
}

/// The statement assigns one of the [`MODEL_ATTRIBUTES`].
pub open spec fn assigns_model_attribute(stmt: Stmt) -> bool {
    match stmt {
        Stmt::Assign { targets, value } => exists|i: int|
            0 <= i < targets@.len() && assigns_attribute(#[trigger] targets@[i], value),
        Stmt::AnnAssign { target, value } => value matches Some(given) && assigns_attribute(
            target,
            given,
        ),
        _ => false,
    }
}

/// The class body assigns `_name` or `_inherit` at its root.
pub open spec fn declares_model_attribute(class_def: ClassDef) -> bool {
    exists|i: int|
        0 <= i < class_def.body@.len() && assigns_model_attribute(#[trigger] class_def.body@[i])
}

/// The base resolves to `odoo.models.Model`, `odoo.models.TransientModel` or
/// `odoo.models.AbstractModel`.
pub open spec fn is_model_base(base: Base) -> bool {
    base.qualified_name matches Some(segments) && {
        &&& segments@.len() == 3
        &&& segments@[0]@ == "odoo"@
        &&& segments@[1]@ == "models"@
        &&& lists(MODEL_BASES@, segments@[2]@)
    }
}

/// The class is an Odoo model: it assigns `_name` or `_inherit`, and one of its bases is a model
/// base.
pub open spec fn is_model(class_def: ClassDef) -> bool {
    &&& declares_model_attribute(class_def)
    &&& class_def.arguments matches Some(bases) && exists|i: int|
        0 <= i < bases@.len() && is_model_base(#[trigger] bases@[i])
}

/// The import is of `odoo.http` or of something below it.
pub open spec fn is_odoo_http_import(import: Option<Vec<String>>) -> bool {
    import matches Some(segments) && {
        &&& segments@.len() >= 2
        &&& segments@[0]@ == "odoo"@
        &&& segments@[1]@ == "http"@
    }
}

/// One of the bindings of a file imports `odoo.http` or something below it.
pub open spec fn imports_odoo_http(imports: Seq<Option<Vec<String>>>) -> bool {
    exists|i: int| 0 <= i < imports.len() && is_odoo_http_import(#[trigger] imports[i])
}

/// The base is a Python builtin, or resolves to something below `odoo.tests`, `unittest`, `enum`
/// or `abc`.
pub open spec fn is_excluded_base(base: Base) -> bool {
    base.builtin is Some || (base.qualified_name matches Some(segments) && {
        ||| segments@.len() >= 2 && segments@[0]@ == "odoo"@ && segments@[1]@ == "tests"@
        ||| segments@.len() >= 1 && lists(NON_CONTROLLER_MODULES@, segments@[0]@)
    })
}

/// The class is an Odoo HTTP controller.
pub open spec fn is_controller(
    imports: Seq<Option<Vec<String>>>,
    class_def: ClassDef,
    path: SourcePath,
    probes: Seq<ManifestProbe>,
) -> bool {
    &&& imports_odoo_http(imports)
    &&& relative_dirs(path, probes) matches Some(dirs) && {
        &&& !any_listed(ODOO_STRUCTURAL_NON_CODE_DIRS@, dirs)
        &&& is_controller_location(path, dirs)
    }
    &&& !is_model(class_def)
    &&& class_def.arguments matches Some(bases) && {
        &&& bases@.len() > 0
        &&& forall|i: int| 0 <= i < bases@.len() ==> !is_excluded_base(#[trigger] bases@[i])
    }
}

/// The bases of the class.
pub open spec fn bases(class_def: ClassDef) -> Seq<Base> {
    match class_def.arguments {
        Some(arguments) => arguments@,
        None => Seq::empty(),
    }
}

/// The value names `model`: it is that string, or a list or tuple with that string in it.
pub open spec fn value_names_model(value: Expr, model: Seq<char>) -> bool {
    match value {
        Expr::StringLiteral { .. } => value.is_string(model),
        Expr::List(list) => exists|i: int|
            0 <= i < list.elts@.len() && (#[trigger] list.elts@[i]).is_string(model),
        Expr::Tuple { elts, .. } => exists|i: int|
            0 <= i < elts@.len() && (#[trigger] elts@[i]).is_string(model),
        _ => false,
    }
}

/// Where `value` is assigned to `target`, `_name` or `_inherit` gets a value that names `model`. In
/// an unpacking each target takes the element in its place.
pub open spec fn gives_model(target: Expr, value: Expr, model: Seq<char>) -> bool
    decreases target,
{
    match target {
        Expr::Name { .. } => is_model_attribute(target) && value_names_model(value, model),
        Expr::Tuple { elts, .. } => display_elements(value) matches Some(elements) && exists|
            i: int,
        |
            0 <= i < elts@.len() && unpacks_in_step(elts@, elements, i) && gives_model(
                #[trigger] elts@[i],
                elements[i],
                model,
            ),
        Expr::List(list) => display_elements(value) matches Some(elements) && exists|i: int|
            0 <= i < list.elts@.len() && unpacks_in_step(list.elts@, elements, i) && gives_model(
                #[trigger] list.elts@[i],
                elements[i],
                model,
            ),
        _ => false,
    }
}

/// An assignment of the value to the target can be made, as far as it shows, and gives `_name` or
/// `_inherit` a value that names `model`.
pub open spec fn assigns_model_to(target: Expr, value: Expr, model: Seq<char>) -> bool {
    gives_model(target, value, model) && accepts(target, value)
}

/// The statement assigns a value that names `model` to `_name` or `_inherit`.
pub open spec fn assigns_model(stmt: Stmt, model: Seq<char>) -> bool {
    match stmt {
        Stmt::Assign { targets, value } => exists|i: int|
            0 <= i < targets@.len() && assigns_model_to(#[trigger] targets@[i], value, model),
        Stmt::AnnAssign { target, value } => value matches Some(given) && assigns_model_to(
            target,
            given,
            model,
        ),
        _ => false,
    }
}

/// The class body declares `model` through `_name` or `_inherit`.
pub open spec fn declares_model(class_def: ClassDef, model: Seq<char>) -> bool {
    exists|i: int|
        0 <= i < class_def.body@.len() && assigns_model(#[trigger] class_def.body@[i], model)
}

/// The statement defines a function called `name`.
pub open spec fn defines_function(stmt: Stmt, name: Seq<char>) -> bool {
    stmt matches Stmt::FunctionDef(function_def) && function_def.name@ == name
}

/// The class body defines a function called `name`.
pub open spec fn defines_method(class_def: ClassDef, name: Seq<char>) -> bool {
    exists|i: int|
        0 <= i < class_def.body@.len() && defines_function(#[trigger] class_def.body@[i], name)
}

/// One of the bases of the class is not a Python builtin.
pub open spec fn has_non_builtin_base(class_def: ClassDef) -> bool {
    exists|i: int|
        0 <= i < bases(class_def).len() && (#[trigger] bases(class_def)[i]).builtin is None
}

/// Whether the target is one of the [`MODEL_ATTRIBUTES`], or unpacks a value into one.
fn names_model_attribute(target: &Expr) -> (yes: bool)
    ensures
        yes == is_model_attribute(*target),
    decreases target,
{
    match target {
        Expr::Name { id, .. } => is_listed(MODEL_ATTRIBUTES.as_slice(), id.as_str()),
        Expr::Tuple { elts, .. } => any_names_model_attribute(elts),
        Expr::List(list) => any_names_model_attribute(&list.elts),
        Expr::Starred { value, .. } => names_model_attribute(value),
        _ => false,
    }
}

/// Whether one of the targets is one of the [`MODEL_ATTRIBUTES`], or unpacks a value into one.
fn any_names_model_attribute(targets: &Vec<Expr>) -> (yes: bool)
    ensures
        yes == any_model_attribute(targets@),
    decreases targets,
{
    let mut i: usize = 0;
    while i < targets.len()
        invariant
            0 <= i <= targets@.len(),
            forall|j: int| 0 <= j < i ==> !is_model_attribute(#[trigger] targets@[j]),
        decreases targets@.len() - i,
    {
        assert(decreases_to!(targets => targets@[i as int]));
        if names_model_attribute(&targets[i]) {
            return true;
        }
        i += 1;
    }
    false
}

/// Whether the expression is a `*value`.
fn is_starred(expr: &Expr) -> (yes: bool)
    ensures
        yes == (*expr is Starred),
{
    match expr {
        Expr::Starred { .. } => true,
        _ => false,
    }
}

/// How many of the expressions have no `*`.
fn count_plain(exprs: &Vec<Expr>) -> (count: usize)
    ensures
        count == plain_count(exprs@),
        count <= exprs@.len(),
{
    let mut count: usize = 0;
    let mut i: usize = 0;
    while i < exprs.len()
        invariant
            0 <= i <= exprs@.len(),
            count <= i,
            count == plain_count(exprs@.take(i as int)),
        decreases exprs@.len() - i,
    {
        assert(exprs@.take(i + 1).drop_last() == exprs@.take(i as int));
        assert(exprs@.take(i + 1).last() == exprs@[i as int]);
        if !is_starred(&exprs[i]) {
            count += 1;
        }
        i += 1;
    }
    assert(exprs@.take(i as int) == exprs@);
    count
}

/// Whether `known` values, and any number more where `more` may follow, can be unpacked into the
/// targets.
fn known_fit(targets: &Vec<Expr>, known: usize, more: bool) -> (yes: bool)
    ensures
        yes == fits(targets@, known as nat, more),
{
    let plain = count_plain(targets);
    (more || plain <= known) && (plain < targets.len() || known <= targets.len())
}

/// Whether the elements can be unpacked into the targets.
fn elements_fit(targets: &Vec<Expr>, elements: &Vec<Expr>) -> (yes: bool)
    ensures
        yes == fits(
            targets@,
            plain_count(elements@),
            plain_count(elements@) < elements@.len(),
        ),
{
    let known = count_plain(elements);
    known_fit(targets, known, known < elements.len())
}

/// Whether the value can be unpacked into the targets, as far as it shows.
fn value_unpacks(targets: &Vec<Expr>, value: &Expr) -> (yes: bool)
    ensures
        yes == can_unpack(targets@, *value),
{
    match value {
        Expr::Tuple { elts, .. } => elements_fit(targets, elts),
        Expr::List(list) => elements_fit(targets, &list.elts),
        Expr::StringLiteral { text, .. } => known_fit(targets, text.as_str().unicode_len(), false),
        Expr::NumberLiteral { .. } => false,
        Expr::BooleanLiteral { .. } => false,
        Expr::NoneLiteral { .. } => false,
        Expr::EllipsisLiteral { .. } => false,
        _ => true,
    }
}

/// Whether the value can be assigned to the target, as far as it shows.
fn can_assign(target: &Expr, value: &Expr) -> (yes: bool)
    ensures
        yes == accepts(*target, *value),
    decreases target,
{
    let targets: &Vec<Expr> = match target {
        Expr::Tuple { elts, .. } => elts,
        Expr::List(list) => &list.elts,
        _ => {
            return true;
        },
    };
    assert(decreases_to!(target => targets@));
    if !value_unpacks(targets, value) {
        return false;
    }
    let elements: &Vec<Expr> = match value {
        Expr::Tuple { elts, .. } => elts,
        Expr::List(list) => &list.elts,
        _ => {
            return true;
        },
    };
    let mut i: usize = 0;
    while i < targets.len() && i < elements.len()
        invariant
            0 <= i <= targets@.len(),
            i <= elements@.len(),
            decreases_to!(target => targets@),
            display_elements(*target) == Some(targets@),
            display_elements(*value) == Some(elements@),
            can_unpack(targets@, *value),
            forall|j: int| 0 <= j < i ==> !((#[trigger] targets@[j]) is Starred),
            forall|j: int| 0 <= j < i ==> !((#[trigger] elements@[j]) is Starred),
            forall|j: int| 0 <= j < i ==> accepts(#[trigger] targets@[j], elements@[j]),
        decreases targets@.len() - i,
    {
        if is_starred(&targets[i]) || is_starred(&elements[i]) {
            assert forall|j: int| 0 <= j < targets@.len() && unpacks_in_step(
                targets@,
                elements@,
                j,
            ) implies j < i by {
                if j >= i {
                    assert(targets@[i as int] is Starred || elements@[i as int] is Starred);
                }
            }
            return true;
        }
        assert(decreases_to!(target => targets@[i as int]));
        if !can_assign(&targets[i], &elements[i]) {
            assert(unpacks_in_step(targets@, elements@, i as int));
            return false;
        }
        i += 1;
    }
    true
}

/// Whether an assignment of the value to the target assigns one of the [`MODEL_ATTRIBUTES`].
fn gives_attribute(target: &Expr, value: &Expr) -> (yes: bool)
    ensures
        yes == assigns_attribute(*target, *value),
{
    names_model_attribute(target) && can_assign(target, value)
}

/// Whether an assignment of the value to one of the targets assigns one of the
/// [`MODEL_ATTRIBUTES`].
fn any_gives_attribute(targets: &Vec<Expr>, value: &Expr) -> (yes: bool)
    ensures
        yes == exists|i: int|
            0 <= i < targets@.len() && assigns_attribute(#[trigger] targets@[i], *value),
{
    let mut i: usize = 0;
    while i < targets.len()
        invariant
            0 <= i <= targets@.len(),
            forall|j: int| 0 <= j < i ==> !assigns_attribute(#[trigger] targets@[j], *value),
        decreases targets@.len() - i,
    {
        if gives_attribute(&targets[i], value) {
            return true;
        }
        i += 1;
    }
    false
}

/// Returns `true` if the class body assigns `_name` or `_inherit` at its root.
///
/// One of the two is what makes a class a model: Odoo's registry keys a model by `_name`, and a
/// class without it extends the models its `_inherit` lists. A class that declares neither adds
/// nothing to the registry, whatever it inherits from.
///
/// `_inherits` is deliberately not accepted on its own. It is delegation, not definition: a class
/// using it still has to name itself through `_name`, so it is already covered. An annotation
/// without a value assigns nothing, nor does an unpacking that Python is sure to refuse.
pub fn class_declares_model_attribute(class_def: &ClassDef) -> (yes: bool)
    ensures
        yes == declares_model_attribute(*class_def),
{
    let mut i: usize = 0;
    while i < class_def.body.len()
        invariant
            0 <= i <= class_def.body@.len(),
            forall|j: int| 0 <= j < i ==> !assigns_model_attribute(#[trigger] class_def.body@[j]),
        decreases class_def.body@.len() - i,
    {
        let assigns = match &class_def.body[i] {
            Stmt::Assign { targets, value } => any_gives_attribute(targets, value),
            Stmt::AnnAssign { target, value } => match value {
                Some(given) => gives_attribute(target, given),
                None => false,
            },
            _ => false,
        };
        if assigns {
            assert(assigns_model_attribute(class_def.body@[i as int]));
            return true;
        }
        i += 1;
    }
    false
}

/// Whether the base resolves to a model base.
fn resolves_to_model_base(base: &Base) -> (yes: bool)
    ensures
        yes == is_model_base(*base),
{
    match &base.qualified_name {
        Some(segments) => segments.len() == 3 && same_text(segments[0].as_str(), "odoo")
            && same_text(segments[1].as_str(), "models") && is_listed(
            MODEL_BASES.as_slice(),
            segments[2].as_str(),
        ),
        None => false,
    }
}

/// Whether one of the bases resolves to a model base.
fn any_resolves_to_model_base(bases: &Vec<Base>) -> (yes: bool)
    ensures
        yes == exists|i: int| 0 <= i < bases@.len() && is_model_base(#[trigger] bases@[i]),
{
    let mut i: usize = 0;
    while i < bases.len()
        invariant
            0 <= i <= bases@.len(),
            forall|j: int| 0 <= j < i ==> !is_model_base(#[trigger] bases@[j]),
        decreases bases@.len() - i,
    {
        if resolves_to_model_base(&bases[i]) {
            return true;
        }
        i += 1;
    }
    false
}

/// Returns `true` if `class_def` is an Odoo model, which takes both halves:
///
/// 1. a base resolving to an Odoo model base (`models.Model`, `TransientModel`, `AbstractModel`)
///    through imports; a bare `Model` base from an unrelated `models` module does not count; and
/// 2. a `_name` or `_inherit` assignment in the class body.
///
/// The base alone would be too loose: a class inheriting `models.Model` without declaring either
/// attribute defines no model. The attribute alone would be too loose in the other direction:
/// component frameworks reuse `_name` and `_inherit` for what are not ORM records. Both halves
/// together are enough, since a model extends another through `_inherit`, not through a base.
pub fn is_odoo_model_class(class_def: &ClassDef) -> (yes: bool)
    ensures
        yes == is_model(*class_def),
{
    if !class_declares_model_attribute(class_def) {
        return false;
    }
    match &class_def.arguments {
        None => false,
        Some(bases) => any_resolves_to_model_base(bases),
    }
}

/// Returns `true` if the file imports `odoo.http`, in any of its three spellings:
/// `from odoo import http`, `from odoo.http import ...`, and `import odoo.http`. All three bind
/// something whose qualified name starts `odoo.http`, so one pattern covers them.
///
/// `imports` has one entry for each binding of the file's global scope: the segments of the
/// qualified name that it imports, or `None` where it is no import.
pub fn file_imports_odoo_http(imports: &[Option<Vec<String>>]) -> (yes: bool)
    ensures
        yes == imports_odoo_http(imports@),
{
    let mut i: usize = 0;
    while i < imports.len()
        invariant
            0 <= i <= imports@.len(),
            forall|j: int| 0 <= j < i ==> !is_odoo_http_import(#[trigger] imports@[j]),
        decreases imports@.len() - i,
    {
        let found = match &imports[i] {
            Some(segments) => segments.len() >= 2 && same_text(segments[0].as_str(), "odoo")
                && same_text(segments[1].as_str(), "http"),
            None => false,
        };
        if found {
            assert(is_odoo_http_import(imports@[i as int]));
            return true;
        }
        i += 1;
    }
    false
}

/// Returns `true` if `base` is a Python builtin or a test case, neither of which an Odoo
/// controller ever derives from.
pub fn is_builtin_or_test_base(base: &Base) -> (yes: bool)
    ensures
        yes == is_excluded_base(*base),
{
    if base.builtin.is_some() {
        return true;
    }
    match &base.qualified_name {
        Some(segments) => {
            if segments.len() >= 2 && same_text(segments[0].as_str(), "odoo") && same_text(
                segments[1].as_str(),
                "tests",
            ) {
                return true;
            }
            segments.len() >= 1 && is_listed(
                NON_CONTROLLER_MODULES.as_slice(),
                segments[0].as_str(),
            )
        },
        None => false,
    }
}

/// Whether one of the bases is a Python builtin or a test case.
fn any_builtin_or_test_base(bases: &Vec<Base>) -> (yes: bool)
    ensures
        yes == exists|i: int| 0 <= i < bases@.len() && is_excluded_base(#[trigger] bases@[i]),
{
    let mut i: usize = 0;
    while i < bases.len()
        invariant
            0 <= i <= bases@.len(),
            forall|j: int| 0 <= j < i ==> !is_excluded_base(#[trigger] bases@[j]),
        decreases bases@.len() - i,
    {
        if is_builtin_or_test_base(&bases[i]) {
            return true;
        }
        i += 1;
    }
    false
}

/// Returns `true` if `class_def` is an Odoo HTTP controller.
///
/// The test is not what the class derives from, since most controllers derive from another
/// addon's controller, whose own base cannot be seen; it is what the file it lives in imports. A
/// file importing `odoo.http` is a file doing HTTP work, and every controller needs it. That
/// breadth costs precision, so the signal is narrowed back:
///
/// - not a model, since model files import `odoo.http` too;
/// - not baseless, since `class Foo:` in such a file is a data structure;
/// - no builtin or test-case base;
/// - not under `tests/`, `migrations/` or `upgrades/`;
/// - in a controller location: a `controller[s]/` directory at any depth inside the addon, or a
///   file named `controller*`.
///
/// Every directory question is answered inside the addon, never above it, and outside an addon
/// there is no Odoo module to serve routes from.
pub fn is_odoo_controller_class(
    imports: &[Option<Vec<String>>],
    class_def: &ClassDef,
    path: &SourcePath,
    probes: &[ManifestProbe],
) -> (yes: bool)
    ensures
        yes == is_controller(imports@, *class_def, *path, probes@),
{
    if !file_imports_odoo_http(imports) {
        return false;
    }
    let dirs = match addon_relative_dirs(path, probes) {
        Some(dirs) => dirs,
        None => {
            return false;
        },
    };
    if in_structural_non_code_dir(dirs.as_slice()) || !in_controller_location(
        path,
        dirs.as_slice(),
    ) {
        return false;
    }
    if is_odoo_model_class(class_def) {
        return false;
    }
    match &class_def.arguments {
        None => false,
        Some(bases) => bases.len() > 0 && !any_builtin_or_test_base(bases),
    }
}

/// Returns `true` if `class_def` inherits from something that is not a Python builtin.
///
/// A far looser test than [`is_odoo_model_class`], and deliberately so: an Odoo addon defines
/// models, controllers, wizards, report parsers and mixins, and only the first of those inherits
/// `models.Model` by that literal name. What this excludes is the rest of a Python file:
/// `class Foo:`, `class Bar(object):` and `class MyError(Exception):` are Python, not Odoo. A base
/// that resolves to nothing at all counts: unresolvable is not builtin.
pub fn inherits_non_builtin(class_def: &ClassDef) -> (yes: bool)
    ensures
        yes == has_non_builtin_base(*class_def),
{
    match &class_def.arguments {
        None => false,
        Some(arguments) => {
            let mut i: usize = 0;
            while i < arguments.len()
                invariant
                    0 <= i <= arguments@.len(),
                    arguments@ == bases(*class_def),
                    forall|j: int| 0 <= j < i ==> (#[trigger] arguments@[j]).builtin is Some,
                decreases arguments@.len() - i,
            {
                if arguments[i].builtin.is_none() {
                    assert(bases(*class_def)[i as int].builtin is None);
                    return true;
                }
                i += 1;
            }
            false
        },
    }
}

/// Returns `true` if the class body defines a function named `name`.
pub fn class_defines_method(class_def: &ClassDef, name: &str) -> (yes: bool)
    ensures
        yes == defines_method(*class_def, name@),
{
    let mut i: usize = 0;
    while i < class_def.body.len()
        invariant
            0 <= i <= class_def.body@.len(),
            forall|j: int| 0 <= j < i ==> !defines_function(#[trigger] class_def.body@[j], name@),
        decreases class_def.body@.len() - i,
    {
        let found = match &class_def.body[i] {
            Stmt::FunctionDef(function_def) => same_text(function_def.name.as_str(), name),
            _ => false,
        };
        if found {
            assert(defines_function(class_def.body@[i as int], name@));
            return true;
        }
        i += 1;
    }
    false
}

/// Whether one of the elements is the string literal `text`.
fn any_spells(elts: &Vec<Expr>, text: &str) -> (yes: bool)
    ensures
        yes == exists|i: int| 0 <= i < elts@.len() && (#[trigger] elts@[i]).is_string(text@),
{
    let mut i: usize = 0;
    while i < elts.len()
        invariant
            0 <= i <= elts@.len(),
            forall|j: int| 0 <= j < i ==> !(#[trigger] elts@[j]).is_string(text@),
        decreases elts@.len() - i,
    {
        if elts[i].spells(text) {
            return true;
        }
        i += 1;
    }
    false
}

/// Whether the value names `model`.
fn names_model(value: &Expr, model: &str) -> (yes: bool)
    ensures
        yes == value_names_model(*value, model@),
{
    match value {
        Expr::StringLiteral { .. } => value.spells(model),
        Expr::List(list) => any_spells(&list.elts, model),
        Expr::Tuple { elts, .. } => any_spells(elts, model),
        _ => false,
    }
}

/// Whether `_name` or `_inherit` gets a value that names `model` where `value` is assigned to
/// `target`.
fn assignment_gives_model(target: &Expr, value: &Expr, model: &str) -> (yes: bool)
    ensures
        yes == gives_model(*target, *value, model@),
    decreases target,
{
    let targets: &Vec<Expr> = match target {
        Expr::Name { .. } => {
            return names_model_attribute(target) && names_model(value, model);
        },
        Expr::Tuple { elts, .. } => elts,
        Expr::List(list) => &list.elts,
        _ => {
            return false;
        },
    };
    assert(decreases_to!(target => targets@));
    let elements: &Vec<Expr> = match value {
        Expr::Tuple { elts, .. } => elts,
        Expr::List(list) => &list.elts,
        _ => {
            return false;
        },
    };
    let mut i: usize = 0;
    while i < targets.len() && i < elements.len()
        invariant
            0 <= i <= targets@.len(),
            i <= elements@.len(),
            decreases_to!(target => targets@),
            display_elements(*target) == Some(targets@),
            display_elements(*value) == Some(elements@),
            forall|j: int| 0 <= j < i ==> !((#[trigger] targets@[j]) is Starred),
            forall|j: int| 0 <= j < i ==> !((#[trigger] elements@[j]) is Starred),
            forall|j: int|
                0 <= j < i ==> !gives_model(#[trigger] targets@[j], elements@[j], model@),
        decreases targets@.len() - i,
    {
        if is_starred(&targets[i]) || is_starred(&elements[i]) {
            assert forall|j: int| 0 <= j < targets@.len() && unpacks_in_step(
                targets@,
                elements@,
                j,
            ) implies j < i by {
                if j >= i {
                    assert(targets@[i as int] is Starred || elements@[i as int] is Starred);
                }
            }
            return false;
        }
        assert(decreases_to!(target => targets@[i as int]));
        if assignment_gives_model(&targets[i], &elements[i], model) {
            assert(unpacks_in_step(targets@, elements@, i as int));
            return true;
        }
        i += 1;
    }
    false
}

/// Whether an assignment of `value` to one of the targets can be made, as far as it shows, and gives
/// `_name` or `_inherit` a value that names `model`.
fn any_gives_model(targets: &Vec<Expr>, value: &Expr, model: &str) -> (yes: bool)
    ensures
        yes == exists|i: int|
            0 <= i < targets@.len() && assigns_model_to(#[trigger] targets@[i], *value, model@),
{
    let mut i: usize = 0;
    while i < targets.len()
        invariant
            0 <= i <= targets@.len(),
            forall|j: int| 0 <= j < i ==> !assigns_model_to(#[trigger] targets@[j], *value, model@),
        decreases targets@.len() - i,
    {
        if assignment_gives_model(&targets[i], value, model) && can_assign(&targets[i], value) {
            return true;
        }
        i += 1;
    }
    false
}

/// Returns `true` if the class body declares `model` through `_name` or `_inherit`.
///
/// Both spellings count, and `_inherit` is read as either a single name or a list of them,
/// because Odoo merges the class into every model it names.
pub fn class_declares_model(class_def: &ClassDef, model: &str) -> (yes: bool)
    ensures
        yes == declares_model(*class_def, model@),
{
    let mut i: usize = 0;
    while i < class_def.body.len()
        invariant
            0 <= i <= class_def.body@.len(),
            forall|j: int| 0 <= j < i ==> !assigns_model(#[trigger] class_def.body@[j], model@),
        decreases class_def.body@.len() - i,
    {
        let found = match &class_def.body[i] {
            Stmt::Assign { targets, value } => any_gives_model(targets, value, model),
            Stmt::AnnAssign { target, value } => match value {
                Some(given) => assignment_gives_model(target, given, model) && can_assign(
                    target,
                    given,
                ),
                None => false,
            },
            _ => false,
        };
        if found {
            assert(assigns_model(class_def.body@[i as int], model@));
            return true;
        }
        i += 1;
    }
    false
}

/// What gives a model attribute a value is one, or unpacks into one.
proof fn lemma_giving_a_model(target: Expr, value: Expr, model: Seq<char>)
    requires
        gives_model(target, value, model),
    ensures
        is_model_attribute(target),
    decreases target,
{
    let elements = display_elements(value)->0;
    match target {
        Expr::Tuple { elts, .. } => {
            let i = choose|i: int|
                0 <= i < elts@.len() && unpacks_in_step(elts@, elements, i) && gives_model(
                    #[trigger] elts@[i],
                    elements[i],
                    model,
                );
            lemma_giving_a_model(elts@[i], elements[i], model);
        },
        Expr::List(list) => {
            let i = choose|i: int|
                0 <= i < list.elts@.len() && unpacks_in_step(list.elts@, elements, i)
                    && gives_model(#[trigger] list.elts@[i], elements[i], model);
            lemma_giving_a_model(list.elts@[i], elements[i], model);
        },
        _ => {},
    }
}

/// A class that declares some model assigns `_name` or `_inherit`.
pub proof fn law_declaring_a_model_takes_an_attribute(class_def: ClassDef, model: Seq<char>)
    requires
        declares_model(class_def, model),
    ensures
        declares_model_attribute(class_def),
{
    let i = choose|i: int|
        0 <= i < class_def.body@.len() && assigns_model(#[trigger] class_def.body@[i], model);
    match class_def.body@[i] {
        Stmt::Assign { targets, value } => {
            let j = choose|j: int|
                0 <= j < targets@.len() && assigns_model_to(#[trigger] targets@[j], value, model);
            lemma_giving_a_model(targets@[j], value, model);
            assert(assigns_attribute(targets@[j], value));
        },
        Stmt::AnnAssign { target, value } => {
            lemma_giving_a_model(target, value->0, model);
        },
        _ => {},
    }
    assert(assigns_model_attribute(class_def.body@[i]));
}

/// No class is both a model and a controller, and neither has an empty list of bases.
pub proof fn law_models_are_not_controllers(
    imports: Seq<Option<Vec<String>>>,
    class_def: ClassDef,
    path: SourcePath,
    probes: Seq<ManifestProbe>,
)
    ensures
        !(is_model(class_def) && is_controller(imports, class_def, path, probes)),
        is_model(class_def) || is_controller(imports, class_def, path, probes) ==> bases(
            class_def,
        ).len() > 0,
{
}

/// Outside an addon there is no controller, nor below its `tests/`, `migrations/` or `upgrades/`.
pub proof fn law_controllers_are_code_of_an_addon(
    imports: Seq<Option<Vec<String>>>,
    class_def: ClassDef,
    path: SourcePath,
    probes: Seq<ManifestProbe>,
)
    requires
        is_controller(imports, class_def, path, probes),
    ensures
        relative_dirs(path, probes) is Some,
        !is_structural(path, probes),
{
}

/// Where the directory around an addon lies has no part in whether a class is a controller.
pub proof fn law_controllers_are_known_from_inside_the_addon(
    imports: Seq<Option<Vec<String>>>,
    class_def: ClassDef,
    above: Seq<PathComponent>,
    elsewhere: Seq<PathComponent>,
    below: Seq<PathComponent>,
    path: SourcePath,
    moved: SourcePath,
    probes: Seq<ManifestProbe>,
)
    requires
        path.components@ == above + below,
        moved.components@ == elsewhere + below,
        addon_depth(path.components@, probes, 0) is Some,
        addon_depth(path.components@, probes, 0)->0 >= above.len(),
    ensures
        is_controller(imports, class_def, moved, probes) == is_controller(
            imports,
            class_def,
            path,
            probes,
        ),
{
    law_answers_come_from_inside_the_addon(above, elsewhere, below, path, moved, probes);
    if let Some(dirs) = relative_dirs(path, probes) {
        assert(is_controller_location(moved, dirs) == is_controller_location(path, dirs));
    }
}

/// A controller inherits from something that is not a Python builtin.
pub proof fn law_controllers_inherit_non_builtins(
    imports: Seq<Option<Vec<String>>>,
    class_def: ClassDef,
    path: SourcePath,
    probes: Seq<ManifestProbe>,
)
    requires
        is_controller(imports, class_def, path, probes),
    ensures
        forall|i: int|
            0 <= i < bases(class_def).len() ==> (#[trigger] bases(class_def)[i]).builtin is None,
        exists|i: int|
            0 <= i < bases(class_def).len() && (#[trigger] bases(class_def)[i]).builtin is None,
{
    assert(!is_excluded_base(bases(class_def)[0]));
}

/// Exactly `_name` and `_inherit` are the attributes that make a model.
proof fn lemma_model_attributes(id: Seq<char>)
    ensures
        lists(MODEL_ATTRIBUTES@, id) <==> id == "_name"@ || id == "_inherit"@,
{
    let names = MODEL_ATTRIBUTES@;
    assert(names[0]@ == "_name"@ && names[1]@ == "_inherit"@);
    if lists(names, id) {
        let n = choose|n: int| 0 <= n < names.len() && (#[trigger] names[n])@ == id;
        assert(n == 0 || n == 1);
    }
}

/// The expression is the plain name `_name` or `_inherit`.
pub open spec fn names_an_attribute(target: Expr) -> bool {
    target matches Expr::Name { id, .. } && (id@ == "_name"@ || id@ == "_inherit"@)
}

/// The statement plainly assigns `value` to `_name` or `_inherit`: one of the targets of an
/// assignment is that name, or it is the target of an annotated assignment.
pub open spec fn plainly_assigns(stmt: Stmt, value: Expr) -> bool {
    match stmt {
        Stmt::Assign { targets, value: given } => given == value && exists|t: int|
            0 <= t < targets@.len() && names_an_attribute(#[trigger] targets@[t]),
        Stmt::AnnAssign { target, value: given } => given == Some(value) && names_an_attribute(
            target,
        ),
        _ => false,
    }
}

/// A plain assignment of `_name` or `_inherit` at any place in the body counts, whatever the value
/// and whatever the other statements are.
pub proof fn law_plain_assignments_count(class_def: ClassDef, i: int, value: Expr)
    requires
        0 <= i < class_def.body@.len(),
        plainly_assigns(class_def.body@[i], value),
    ensures
        assigns_model_attribute(class_def.body@[i]),
        declares_model_attribute(class_def),
{
    lemma_model_attributes("_name"@);
    lemma_model_attributes("_inherit"@);
    if let Stmt::Assign { targets, .. } = class_def.body@[i] {
        let t = choose|t: int|
            0 <= t < targets@.len() && names_an_attribute(#[trigger] targets@[t]);
        assert(assigns_attribute(targets@[t], value));
    }
}

/// Statements count one by one: a body with one more statement assigns `_name` or `_inherit`
/// exactly if the shorter one or the statement does. An empty body, a function, a bare annotation
/// and any other statement do not.
pub proof fn law_statements_count_one_by_one(shorter: ClassDef, longer: ClassDef, stmt: Stmt)
    requires
        longer.body@ == shorter.body@.push(stmt),
    ensures
        declares_model_attribute(longer) <==> declares_model_attribute(shorter)
            || assigns_model_attribute(stmt),
        shorter.body@.len() == 0 ==> !declares_model_attribute(shorter),
        stmt is FunctionDef || stmt is Other ==> !assigns_model_attribute(stmt),
        stmt matches Stmt::AnnAssign { value, .. } ==> (value is None ==> !assigns_model_attribute(
            stmt,
        )),
{
    let n = shorter.body@.len() as int;
    assert(longer.body@[n] == stmt);
    if declares_model_attribute(shorter) {
        let i = choose|i: int| 0 <= i < n && assigns_model_attribute(#[trigger] shorter.body@[i]);
        assert(longer.body@[i] == shorter.body@[i]);
    }
    if declares_model_attribute(longer) {
        let i = choose|i: int|
            0 <= i < n + 1 && assigns_model_attribute(#[trigger] longer.body@[i]);
        if i < n {
            assert(shorter.body@[i] == longer.body@[i]);
        }
    }
}

/// The targets of an assignment count one by one, and an annotated target with a value counts as
/// the only target of an assignment does.
pub proof fn law_targets_count_one_by_one(
    shorter: Vec<Expr>,
    longer: Vec<Expr>,
    target: Expr,
    value: Expr,
)
    requires
        longer@ == shorter@.push(target),
    ensures
        assigns_model_attribute(Stmt::Assign { targets: longer, value })
            <==> assigns_model_attribute(Stmt::Assign { targets: shorter, value })
            || assigns_attribute(target, value),
        shorter@.len() == 0 ==> !assigns_model_attribute(Stmt::Assign { targets: shorter, value }),
        assigns_model_attribute(Stmt::AnnAssign { target, value: Some(value) })
            == assigns_attribute(target, value),
{
    let n = shorter@.len() as int;
    assert(longer@[n] == target);
    let before = Stmt::Assign { targets: shorter, value };
    let after = Stmt::Assign { targets: longer, value };
    if assigns_model_attribute(before) {
        let i = choose|i: int| 0 <= i < n && assigns_attribute(#[trigger] shorter@[i], value);
        assert(after->targets@[i] == longer@[i]);
        assert(assigns_attribute(after->targets@[i], value));
    }
    if assigns_attribute(target, value) {
        assert(assigns_attribute(after->targets@[n], value));
    }
    if assigns_model_attribute(after) {
        let i = choose|i: int| 0 <= i < n + 1 && assigns_attribute(#[trigger] longer@[i], value);
        if i < n {
            assert(assigns_attribute(before->targets@[i], value));
        }
    }
}

/// A plain name is assigned whatever the value is, and counts exactly if it is `_name` or
/// `_inherit`. Nothing but names and what unpacks into them counts.
pub proof fn law_only_names_count(target: Expr, value: Expr)
    ensures
        target is Name ==> (assigns_attribute(target, value) <==> names_an_attribute(target)),
        !(target is Name || target is Tuple || target is List || target is Starred)
            ==> !assigns_attribute(target, value),
{
    if let Expr::Name { id, .. } = target {
        lemma_model_attributes(id@);
    }
}

/// The elements are plain names.
pub open spec fn all_names(exprs: Seq<Expr>) -> bool {
    forall|i: int| 0 <= i < exprs.len() ==> (#[trigger] exprs[i]) is Name
}

/// No element has a `*`.
pub open spec fn none_starred(exprs: Seq<Expr>) -> bool {
    forall|i: int| 0 <= i < exprs.len() ==> !((#[trigger] exprs[i]) is Starred)
}

/// An unpacking into plain names counts exactly if one of them is `_name` or `_inherit` and the
/// value can be unpacked: a display of elements without a `*` if it has as many, and a name, a call
/// or an access always.
pub proof fn law_unpacking_counts_where_it_fits(target: Expr, value: Expr)
    requires
        display_elements(target) matches Some(targets) && all_names(targets),
    ensures
        ({
            let targets = display_elements(target)->0;
            let named = exists|i: int|
                0 <= i < targets.len() && names_an_attribute(#[trigger] targets[i]);
            &&& display_elements(value) matches Some(elements) ==> none_starred(elements) ==> (
            assigns_attribute(target, value) <==> named && elements.len() == targets.len())
            &&& value is Name || value is Call || value is Attribute || value is Subscript ==> (
            assigns_attribute(target, value) <==> named)
        }),
{
    let targets = display_elements(target)->0;
    lemma_plain_count(targets);
    assert forall|i: int| 0 <= i < targets.len() implies is_model_attribute(#[trigger] targets[i])
        == names_an_attribute(targets[i]) by {
        lemma_model_attributes(targets[i]->Name_id@);
    }
    if let Some(elements) = display_elements(value) {
        if none_starred(elements) {
            lemma_plain_count(elements);
        }
        assert forall|i: int| 0 <= i < targets.len() implies accepts(
            #[trigger] targets[i],
            elements[i],
        ) by {}
    }
    if is_model_attribute(target) {
        let i = choose|i: int|
            0 <= i < targets.len() && is_model_attribute(#[trigger] targets[i]);
        assert(names_an_attribute(targets[i]));
    }
}

/// Without a `*` all are counted.
proof fn lemma_plain_count(exprs: Seq<Expr>)
    requires
        none_starred(exprs),
    ensures
        plain_count(exprs) == exprs.len(),
    decreases exprs.len(),
{
    if exprs.len() > 0 {
        assert(!(exprs[exprs.len() - 1] is Starred));
        assert forall|i: int| 0 <= i < exprs.drop_last().len() implies !((
        #[trigger] exprs.drop_last()[i]) is Starred) by {
            assert(!(exprs[i] is Starred));
        }
        lemma_plain_count(exprs.drop_last());
    }
}

/// The base resolves to `odoo.models.Model`, `odoo.models.TransientModel` or
/// `odoo.models.AbstractModel` and to nothing below or above them.
pub open spec fn resolves_to_model(base: Base) -> bool {
    base.qualified_name matches Some(segments) && segments@.len() == 3 && segments@[0]@ == "odoo"@
        && segments@[1]@ == "models"@ && (segments@[2]@ == "Model"@ || segments@[2]@
        == "TransientModel"@ || segments@[2]@ == "AbstractModel"@)
}

/// Exactly the bases that resolve to one of the three are model bases.
proof fn lemma_model_base(base: Base)
    ensures
        is_model_base(base) <==> resolves_to_model(base),
{
    let names = MODEL_BASES@;
    assert(names[0]@ == "Model"@ && names[1]@ == "TransientModel"@ && names[2]@
        == "AbstractModel"@);
    if is_model_base(base) {
        let text = base.qualified_name->0@[2]@;
        let n = choose|n: int| 0 <= n < names.len() && (#[trigger] names[n])@ == text;
        assert(n == 0 || n == 1 || n == 2);
    }
}

/// A class with a model base among its bases and with a plain assignment of `_name` or `_inherit` at
/// any place in its body is a model, whatever else it holds.
pub proof fn law_base_and_attribute_make_a_model(class_def: ClassDef, b: int, i: int, value: Expr)
    requires
        class_def.arguments matches Some(found) && 0 <= b < found@.len() && resolves_to_model(
            found@[b],
        ),
        0 <= i < class_def.body@.len(),
        plainly_assigns(class_def.body@[i], value),
    ensures
        is_model(class_def),
{
    law_plain_assignments_count(class_def, i, value);
    lemma_model_base(class_def.arguments->0@[b]);
}

/// A model has a model base among its bases and assigns `_name` or `_inherit`.
pub proof fn law_models_have_base_and_attribute(class_def: ClassDef)
    ensures
        is_model(class_def) <==> declares_model_attribute(class_def) && exists|b: int|
            0 <= b < bases(class_def).len() && resolves_to_model(#[trigger] bases(class_def)[b]),
{
    assert forall|b: int| 0 <= b < bases(class_def).len() implies is_model_base(
        #[trigger] bases(class_def)[b],
    ) == resolves_to_model(bases(class_def)[b]) by {
        lemma_model_base(bases(class_def)[b]);
    }
}

/// A class that holds all statements and all bases of a model is a model: nothing that is added or
/// moved makes a model stop being one.
pub proof fn law_models_stay_models(class_def: ClassDef, other: ClassDef)
    requires
        is_model(class_def),
        forall|i: int|
            0 <= i < class_def.body@.len() ==> other.body@.contains(#[trigger] class_def.body@[i]),
        forall|b: int|
            0 <= b < bases(class_def).len() ==> bases(other).contains(#[trigger] bases(class_def)[b]),
    ensures
        is_model(other),
{
    let i = choose|i: int|
        0 <= i < class_def.body@.len() && assigns_model_attribute(#[trigger] class_def.body@[i]);
    let j = choose|j: int| 0 <= j < other.body@.len() && other.body@[j] == class_def.body@[i];
    assert(assigns_model_attribute(other.body@[j]));
    let b = choose|b: int|
        0 <= b < bases(class_def).len() && is_model_base(#[trigger] bases(class_def)[b]);
    assert(bases(other).contains(bases(class_def)[b]));
    let c = choose|c: int| 0 <= c < bases(other).len() && bases(other)[c] == bases(class_def)[b];
    assert(is_model_base(bases(other)[c]));
}

/// Imports count one by one: a file with one more binding imports `odoo.http` exactly if it did, or
/// if the binding imports `odoo.http` or something below it.
pub proof fn law_imports_count_one_by_one(
    imports: Seq<Option<Vec<String>>>,
    import: Option<Vec<String>>,
)
    ensures
        !imports_odoo_http(Seq::empty()),
        imports_odoo_http(imports.push(import)) <==> imports_odoo_http(imports) || (
        import matches Some(segments) && segments@.len() >= 2 && segments@[0]@ == "odoo"@
            && segments@[1]@ == "http"@),
{
    let longer = imports.push(import);
    let n = imports.len() as int;
    assert(longer[n] == import);
    if imports_odoo_http(imports) {
        let i = choose|i: int| 0 <= i < n && is_odoo_http_import(#[trigger] imports[i]);
        assert(longer[i] == imports[i]);
    }
    if imports_odoo_http(longer) {
        let i = choose|i: int| 0 <= i < n + 1 && is_odoo_http_import(#[trigger] longer[i]);
        if i < n {
            assert(imports[i] == longer[i]);
        }
    }
    if is_odoo_http_import(import) {
        assert(is_odoo_http_import(longer[n]));
    }
}

/// Exactly builtins and what resolves below `odoo.tests`, `unittest`, `enum` or `abc`, at any depth,
/// are bases that keep a class from being a controller.
pub proof fn law_excluded_bases(base: Base)
    ensures
        base.builtin is Some ==> is_excluded_base(base),
        base.builtin is None && base.qualified_name is None ==> !is_excluded_base(base),
        base.builtin is None ==> (base.qualified_name matches Some(segments) ==> (is_excluded_base(
            base,
        ) <==> segments@.len() >= 1 && (segments@[0]@ == "unittest"@ || segments@[0]@ == "enum"@
            || segments@[0]@ == "abc"@ || (segments@.len() >= 2 && segments@[0]@ == "odoo"@
            && segments@[1]@ == "tests"@)))),
{
    let names = NON_CONTROLLER_MODULES@;
    assert(names[0]@ == "unittest"@ && names[1]@ == "enum"@ && names[2]@ == "abc"@);
    if let Some(segments) = base.qualified_name {
        if segments@.len() >= 1 && lists(names, segments@[0]@) {
            let n = choose|n: int|
                0 <= n < names.len() && (#[trigger] names[n])@ == segments@[0]@;
            assert(n == 0 || n == 1 || n == 2);
        }
    }
}

/// A class of a file that imports `odoo.http`, in a controller location of an addon and below none
/// of its structural directories, is a controller whatever its body holds, if it is no model, has a
/// base, and has none that keeps it from being one.
pub proof fn law_what_makes_a_controller(
    imports: Seq<Option<Vec<String>>>,
    class_def: ClassDef,
    path: SourcePath,
    probes: Seq<ManifestProbe>,
)
    requires
        imports_odoo_http(imports),
        relative_dirs(path, probes) matches Some(dirs) && is_controller_location(path, dirs),
        !is_structural(path, probes),
        !is_model(class_def),
        bases(class_def).len() > 0,
        forall|b: int|
            0 <= b < bases(class_def).len() ==> !is_excluded_base(#[trigger] bases(class_def)[b]),
    ensures
        is_controller(imports, class_def, path, probes),
{
    let found = class_def.arguments->0@;
    assert forall|b: int| 0 <= b < found.len() implies !is_excluded_base(#[trigger] found[b]) by {
        assert(!is_excluded_base(bases(class_def)[b]));
    }
}

/// A controller is in a file that imports `odoo.http` and in a controller location of an addon, and
/// has bases, none of which keeps it from being one.
pub proof fn law_what_a_controller_has(
    imports: Seq<Option<Vec<String>>>,
    class_def: ClassDef,
    path: SourcePath,
    probes: Seq<ManifestProbe>,
)
    requires
        is_controller(imports, class_def, path, probes),
    ensures
        imports_odoo_http(imports),
        relative_dirs(path, probes) matches Some(dirs) && is_controller_location(path, dirs),
        bases(class_def).len() > 0,
        forall|b: int|
            0 <= b < bases(class_def).len() ==> !is_excluded_base(#[trigger] bases(class_def)[b]),
{
}

/// Two classes of a file with the same bases, neither of them a model, are both controllers or
/// neither is, whatever their bodies hold; nor does it matter what else two files import that both
/// import `odoo.http`.
pub proof fn law_bodies_have_no_part_in_controllers(
    imports: Seq<Option<Vec<String>>>,
    others: Seq<Option<Vec<String>>>,
    class_def: ClassDef,
    other: ClassDef,
    path: SourcePath,
    probes: Seq<ManifestProbe>,
)
    requires
        class_def.arguments == other.arguments,
        !is_model(class_def),
        !is_model(other),
        imports_odoo_http(imports) == imports_odoo_http(others),
    ensures
        is_controller(imports, class_def, path, probes) == is_controller(
            others,
            other,
            path,
            probes,
        ),
{
}

/// Bases count one by one: a class with one more base inherits from something that is no builtin
/// exactly if it did, or if the base is none; a class without bases does not.
pub proof fn law_bases_count_one_by_one(shorter: ClassDef, longer: ClassDef, base: Base)
    requires
        bases(longer) == bases(shorter).push(base),
    ensures
        has_non_builtin_base(longer) <==> has_non_builtin_base(shorter) || base.builtin is None,
        shorter.arguments is None ==> bases(shorter).len() == 0,
        shorter.arguments matches Some(arguments) ==> bases(shorter) == arguments@,
        bases(shorter).len() == 0 ==> !has_non_builtin_base(shorter),
{
    let n = bases(shorter).len() as int;
    assert(bases(longer)[n] == base);
    if has_non_builtin_base(shorter) {
        let i = choose|i: int| 0 <= i < n && (#[trigger] bases(shorter)[i]).builtin is None;
        assert(bases(longer)[i] == bases(shorter)[i]);
    }
    if has_non_builtin_base(longer) {
        let i = choose|i: int| 0 <= i < n + 1 && (#[trigger] bases(longer)[i]).builtin is None;
        if i < n {
            assert(bases(shorter)[i] == bases(longer)[i]);
        }
    }
}

/// Functions count one by one: a body with one more statement defines a method exactly if it did,
/// or if the statement is a function of that name.
pub proof fn law_methods_count_one_by_one(
    shorter: ClassDef,
    longer: ClassDef,
    stmt: Stmt,
    name: Seq<char>,
)
    requires
        longer.body@ == shorter.body@.push(stmt),
    ensures
        defines_method(longer, name) <==> defines_method(shorter, name) || (
        stmt matches Stmt::FunctionDef(function_def) && function_def.name@ == name),
        shorter.body@.len() == 0 ==> !defines_method(shorter, name),
{
    let n = shorter.body@.len() as int;
    assert(longer.body@[n] == stmt);
    if defines_method(shorter, name) {
        let i = choose|i: int|
            0 <= i < n && defines_function(#[trigger] shorter.body@[i], name);
        assert(longer.body@[i] == shorter.body@[i]);
    }
    if defines_method(longer, name) {
        let i = choose|i: int|
            0 <= i < n + 1 && defines_function(#[trigger] longer.body@[i], name);
        if i < n {
            assert(shorter.body@[i] == longer.body@[i]);
        }
    }
}

/// The value is the string `model`, or a list or tuple that holds it at some place.
pub open spec fn holds_model(value: Expr, model: Seq<char>) -> bool {
    ||| value matches Expr::StringLiteral { text, .. } && text@ == model
    ||| display_elements(value) matches Some(elements) && exists|e: int|
        0 <= e < elements.len() && (#[trigger] elements[e]).is_string(model)
}

/// A plain assignment to `_name` or `_inherit`, at any place in the body, declares the model that
/// its value is and every model that its value lists.
pub proof fn law_plain_assignments_declare(
    class_def: ClassDef,
    i: int,
    value: Expr,
    model: Seq<char>,
)
    requires
        0 <= i < class_def.body@.len(),
        plainly_assigns(class_def.body@[i], value),
        holds_model(value, model),
    ensures
        declares_model(class_def, model),
{
    lemma_model_attributes("_name"@);
    lemma_model_attributes("_inherit"@);
    lemma_holds_model(value, model);
    match class_def.body@[i] {
        Stmt::Assign { targets, .. } => {
            let t = choose|t: int|
                0 <= t < targets@.len() && names_an_attribute(#[trigger] targets@[t]);
            assert(assigns_model_to(targets@[t], value, model));
        },
        Stmt::AnnAssign { target, .. } => {
            assert(assigns_model_to(target, value, model));
        },
        _ => {},
    }
    assert(assigns_model(class_def.body@[i], model));
}

proof fn lemma_holds_model(value: Expr, model: Seq<char>)
    ensures
        value_names_model(value, model) == holds_model(value, model),
{
    match value {
        Expr::List(list) => {
            if value_names_model(value, model) {
                let e = choose|e: int|
                    0 <= e < list.elts@.len() && (#[trigger] list.elts@[e]).is_string(model);
                assert(display_elements(value)->0[e].is_string(model));
            }
        },
        Expr::Tuple { elts, .. } => {
            if value_names_model(value, model) {
                let e = choose|e: int|
                    0 <= e < elts@.len() && (#[trigger] elts@[e]).is_string(model);
                assert(display_elements(value)->0[e].is_string(model));
            }
        },
        _ => {},
    }
}

/// Declarations count one by one: a body with one more statement declares a model exactly if it
/// did, or if the statement does. A function, a bare annotation and any other statement declare
/// none, and an assignment to a plain name declares exactly the models that its value holds, if the
/// name is `_name` or `_inherit`.
pub proof fn law_declarations_count_one_by_one(
    shorter: ClassDef,
    longer: ClassDef,
    stmt: Stmt,
    model: Seq<char>,
)
    requires
        longer.body@ == shorter.body@.push(stmt),
    ensures
        declares_model(longer, model) <==> declares_model(shorter, model) || assigns_model(
            stmt,
            model,
        ),
        shorter.body@.len() == 0 ==> !declares_model(shorter, model),
        stmt is FunctionDef || stmt is Other ==> !assigns_model(stmt, model),
        stmt matches Stmt::AnnAssign { target, value } ==> match value {
            None => !assigns_model(stmt, model),
            Some(given) => target is Name ==> (assigns_model(stmt, model) <==> names_an_attribute(
                target,
            ) && holds_model(given, model)),
        },
        stmt matches Stmt::Assign { targets, value } ==> (all_names(targets@) ==> (assigns_model(
            stmt,
            model,
        ) <==> plainly_assigns(stmt, value) && holds_model(value, model))),
{
    let n = shorter.body@.len() as int;
    assert(longer.body@[n] == stmt);
    if declares_model(shorter, model) {
        let i = choose|i: int| 0 <= i < n && assigns_model(#[trigger] shorter.body@[i], model);
        assert(longer.body@[i] == shorter.body@[i]);
    }
    if declares_model(longer, model) {
        let i = choose|i: int| 0 <= i < n + 1 && assigns_model(#[trigger] longer.body@[i], model);
        if i < n {
            assert(shorter.body@[i] == longer.body@[i]);
        }
    }
    match stmt {
        Stmt::AnnAssign { target, value } => {
            if let Some(given) = value {
                lemma_holds_model(given, model);
                if let Expr::Name { id, .. } = target {
                    lemma_model_attributes(id@);
                }
            }
        },
        Stmt::Assign { targets, value } => {
            lemma_holds_model(value, model);
            if all_names(targets@) {
                assert forall|t: int| 0 <= t < targets@.len() implies assigns_model_to(
                    #[trigger] targets@[t],
                    value,
                    model,
                ) == (names_an_attribute(targets@[t]) && holds_model(value, model)) by {
                    lemma_model_attributes(targets@[t]->Name_id@);
                }
                if assigns_model(stmt, model) {
                    let t = choose|t: int|
                        0 <= t < targets@.len() && assigns_model_to(
                            #[trigger] targets@[t],
                            value,
                            model,
                        );
                    assert(names_an_attribute(targets@[t]));
                }
                if plainly_assigns(stmt, value) && holds_model(value, model) {
                    let t = choose|t: int|
                        0 <= t < targets@.len() && names_an_attribute(#[trigger] targets@[t]);
                    assert(assigns_model_to(targets@[t], value, model));
                }
            }
        },
        _ => {},
    }
}

/// An unpacking into as many plain names as there are elements without a `*` declares exactly the
/// models that the elements in the places of `_name` and `_inherit` hold.
pub proof fn law_unpacking_declares_in_step(target: Expr, value: Expr, model: Seq<char>)
    requires
        display_elements(target) matches Some(targets) && all_names(targets),
        display_elements(value) matches Some(elements) && none_starred(elements) && elements.len()
            == display_elements(target)->0.len(),
    ensures
        ({
            let targets = display_elements(target)->0;
            let elements = display_elements(value)->0;
            assigns_model_to(target, value, model) <==> exists|i: int|
                0 <= i < targets.len() && names_an_attribute(#[trigger] targets[i]) && holds_model(
                    elements[i],
                    model,
                )
        }),
{
    let targets = display_elements(target)->0;
    let elements = display_elements(value)->0;
    lemma_plain_count(targets);
    lemma_plain_count(elements);
    assert forall|i: int| 0 <= i < targets.len() implies accepts(
        #[trigger] targets[i],
        elements[i],
    ) by {}
    assert(accepts(target, value));
    assert forall|i: int| 0 <= i < targets.len() implies gives_model(
        #[trigger] targets[i],
        elements[i],
        model,
    ) == (names_an_attribute(targets[i]) && holds_model(elements[i], model)) by {
        lemma_model_attributes(targets[i]->Name_id@);
        lemma_holds_model(elements[i], model);
    }
    assert forall|i: int| 0 <= i < targets.len() implies #[trigger] unpacks_in_step(
        targets,
        elements,
        i,
    ) by {}
    if exists|i: int|
        0 <= i < targets.len() && names_an_attribute(#[trigger] targets[i]) && holds_model(
            elements[i],
            model,
        ) {
        let i = choose|i: int|
            0 <= i < targets.len() && names_an_attribute(#[trigger] targets[i]) && holds_model(
                elements[i],
                model,
            );
        assert(unpacks_in_step(targets, elements, i));
        assert(gives_model(targets[i], elements[i], model));
    }
}

/// A tuple or list of targets assigns `_name` or `_inherit` exactly if one of its targets does, at
/// any depth, and a `*` before a target changes nothing.
pub proof fn law_nested_targets_count(shorter: Expr, longer: Expr, target: Expr, starred: Expr)
    requires
        match (shorter, longer) {
            (Expr::List(a), Expr::List(b)) => b.elts@ == a.elts@.push(target),
            (Expr::Tuple { elts: a, .. }, Expr::Tuple { elts: b, .. }) => b@ == a@.push(target),
            _ => false,
        },
        starred matches Expr::Starred { value, .. } && *value == target,
    ensures
        is_model_attribute(longer) <==> is_model_attribute(shorter) || is_model_attribute(target),
        is_model_attribute(starred) == is_model_attribute(target),
{
    let a = display_elements(shorter)->0;
    let b = display_elements(longer)->0;
    let n = a.len() as int;
    assert(b[n] == target);
    if is_model_attribute(shorter) {
        let i = choose|i: int| 0 <= i < a.len() && is_model_attribute(#[trigger] a[i]);
        assert(is_model_attribute(b[i]));
    }
    if is_model_attribute(longer) {
        let i = choose|i: int| 0 <= i < b.len() && is_model_attribute(#[trigger] b[i]);
        if i < n {
            assert(is_model_attribute(a[i]));
        }
    }
    if is_model_attribute(target) {
        assert(is_model_attribute(b[n]));
    }
}

/// Python refuses to unpack a number, a boolean, `None` and `...`, and unpacks a string into as many
/// targets as it has characters; what a name or a call gives may be unpacked.
pub proof fn law_what_can_be_unpacked(targets: Seq<Expr>, value: Expr)
    ensures
        value is NumberLiteral || value is BooleanLiteral || value is NoneLiteral
            || value is EllipsisLiteral ==> !can_unpack(targets, value),
        value is Name || value is Call || value is Attribute || value is Subscript
            || value is Other ==> can_unpack(targets, value),
        value matches Expr::StringLiteral { text, .. } ==> (none_starred(targets) ==> (can_unpack(
            targets,
            value,
        ) <==> text@.len() == targets.len())),
{
    if none_starred(targets) {
        lemma_plain_count(targets);
    }
}

/// With one `*` among the targets, a display without one can be unpacked exactly if each of the
/// other targets gets an element.
pub proof fn law_a_star_takes_what_is_left(targets: Seq<Expr>, value: Expr, s: int)
    requires
        0 <= s < targets.len(),
        targets[s] is Starred,
        forall|i: int| 0 <= i < targets.len() && i != s ==> !((#[trigger] targets[i]) is Starred),
        display_elements(value) matches Some(elements) && none_starred(elements),
    ensures
        can_unpack(targets, value) <==> display_elements(value)->0.len() >= targets.len() - 1,
{
    lemma_plain_count(display_elements(value)->0);
    lemma_plain_count_but_one(targets, s);
}

/// With one `*` all others are counted.
proof fn lemma_plain_count_but_one(exprs: Seq<Expr>, s: int)
    requires
        0 <= s < exprs.len(),
        exprs[s] is Starred,
        forall|i: int| 0 <= i < exprs.len() && i != s ==> !((#[trigger] exprs[i]) is Starred),
    ensures
        plain_count(exprs) == exprs.len() - 1,
    decreases exprs.len(),
{
    let rest = exprs.drop_last();
    assert forall|i: int| 0 <= i < rest.len() implies #[trigger] rest[i] == exprs[i] by {}
    if s == exprs.len() - 1 {
        assert forall|i: int| 0 <= i < rest.len() implies !((#[trigger] rest[i]) is Starred) by {
            assert(!(exprs[i] is Starred));
        }
        lemma_plain_count(rest);
    } else {
        assert(!(exprs[exprs.len() - 1] is Starred));
        lemma_plain_count_but_one(rest, s);
    }
}

/// Tuple and list displays have elements, in their order, and nothing else has.
pub proof fn law_displays_have_elements(expr: Expr)
    ensures
        match expr {
            Expr::Tuple { elts, .. } => display_elements(expr) == Some(elts@),
            Expr::List(list) => display_elements(expr) == Some(list.elts@),
            _ => display_elements(expr) is None,
        },
{
}

} // verus!

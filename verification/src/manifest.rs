//! Module manifests.

use vstd::prelude::*;

#[allow(unused_imports)]
use crate::ast::DictItem;
use crate::ast::{Expr, ExprDict, ScopeKind, UnaryOp};
#[allow(unused_imports)]
use crate::path::is_manifest;
use crate::path::{is_manifest_file, SourcePath};
use crate::text::TextRange;

verus! {

/// Manifest keys whose values are lists of module data file paths.
pub const MANIFEST_DATA_KEYS: [&'static str; 6] = [
    "data",
    "demo",
    "demo_xml",
    "init_xml",
    "test",
    "update_xml",
];

/// Item `i` of the dict has the string literal `key` for its key.
pub open spec fn has_key(dict: ExprDict, i: int, key: Seq<char>) -> bool {
    dict.items@[i].key matches Some(found) && found.is_string(key)
}

/// Item `i` is the first of the dict whose key is the string literal `key`.
pub open spec fn is_first_item(dict: ExprDict, i: int, key: Seq<char>) -> bool {
    &&& 0 <= i < dict.items@.len()
    &&& has_key(dict, i, key)
    &&& forall|j: int| 0 <= j < i ==> !#[trigger] has_key(dict, j, key)
}

/// The dict has an item whose key is the string literal `key`.
pub open spec fn has_item(dict: ExprDict, key: Seq<char>) -> bool {
    exists|i: int| 0 <= i < dict.items@.len() && #[trigger] has_key(dict, i, key)
}

/// The value can be read without running any code: it is a constant (a string, bytes, a number, a
/// boolean, `None` or `...`), a number behind one `+` or `-`, or a list, tuple, set or dict display
/// made of nothing but such values.
pub open spec fn literal_evaluable(expr: Expr) -> bool
    decreases expr,
{
    match expr {
        Expr::StringLiteral { .. } => true,
        Expr::BytesLiteral { .. } => true,
        Expr::NumberLiteral { .. } => true,
        Expr::BooleanLiteral { .. } => true,
        Expr::NoneLiteral { .. } => true,
        Expr::EllipsisLiteral { .. } => true,
        Expr::UnaryOp { op, operand, .. } => (op == UnaryOp::USub || op == UnaryOp::UAdd)
            && *operand is NumberLiteral,
        Expr::List(list) => forall|i: int|
            0 <= i < list.elts@.len() ==> literal_evaluable(#[trigger] list.elts@[i]),
        Expr::Tuple { elts, .. } => forall|i: int|
            0 <= i < elts@.len() ==> literal_evaluable(#[trigger] elts@[i]),
        Expr::SetDisplay { elts, .. } => forall|i: int|
            0 <= i < elts@.len() ==> literal_evaluable(#[trigger] elts@[i]),
        Expr::Dict(dict) => dict_evaluable(dict),
        _ => false,
    }
}

/// Every key and every value of the dict can be read without running any code, and no entry is
/// without a key.
pub open spec fn dict_evaluable(dict: ExprDict) -> bool
    decreases dict,
{
    forall|i: int|
        0 <= i < dict.items@.len() ==> {
            &&& (#[trigger] dict.items@[i]).key is Some
            &&& literal_evaluable(dict.items@[i].key->0)
            &&& literal_evaluable(dict.items@[i].value)
        }
}

/// `dict`, visited in `scope`, is the top-level dict of a manifest.
pub open spec fn is_root_dict(
    scope: ScopeKind,
    has_parent_expression: bool,
    dict: ExprDict,
    path: SourcePath,
) -> bool {
    &&& is_manifest(path)
    &&& scope is Module
    &&& !has_parent_expression
    &&& dict_evaluable(dict)
}

/// The index of the first item whose key is the string literal `key`.
fn find_item(dict: &ExprDict, key: &str) -> (found: Option<usize>)
    ensures
        match found {
            Some(i) => is_first_item(*dict, i as int, key@),
            None => !has_item(*dict, key@),
        },
{
    let mut i: usize = 0;
    while i < dict.items.len()
        invariant
            0 <= i <= dict.items@.len(),
            forall|j: int| 0 <= j < i ==> !#[trigger] has_key(*dict, j, key@),
        decreases dict.items@.len() - i,
    {
        if let Some(found) = &dict.items[i].key {
            if found.spells(key) {
                assert(has_key(*dict, i as int, key@));
                return Some(i);
            }
        }
        i += 1;
    }
    None
}

/// Returns the key and value expressions for `key` in a manifest dict literal, if present.
///
/// The key expression is what callers should report diagnostics on, rather than the whole dict.
pub fn manifest_item<'a>(dict: &'a ExprDict, key: &str) -> (item: Option<(&'a Expr, &'a Expr)>)
    ensures
        item is Some <==> has_item(*dict, key@),
        item matches Some((key_expr, value)) ==> exists|i: int| #[trigger]
            is_first_item(*dict, i, key@) && dict.items@[i].key == Some(*key_expr)
                && dict.items@[i].value == *value,
{
    match find_item(dict, key) {
        Some(i) => {
            assert(has_key(*dict, i as int, key@));
            match &dict.items[i].key {
                Some(key_expr) => Some((key_expr, &dict.items[i].value)),
                None => None,
            }
        },
        None => None,
    }
}

/// Returns the string value of `key` in a manifest dict literal, and the key expression to report
/// on, if `key` is present and its value is a plain string literal.
pub fn manifest_string_item<'a>(dict: &'a ExprDict, key: &str) -> (item: Option<
    (&'a Expr, &'a str),
>)
    ensures
        item is Some <==> exists|i: int| #[trigger]
            is_first_item(*dict, i, key@) && dict.items@[i].value is StringLiteral,
        item matches Some((key_expr, text)) ==> exists|i: int| #[trigger]
            is_first_item(*dict, i, key@) && dict.items@[i].key == Some(*key_expr)
                && dict.items@[i].value.is_string(text@),
{
    match manifest_item(dict, key) {
        Some((key_expr, value)) => {
            proof {
                let i = choose|i: int| #[trigger]
                    is_first_item(*dict, i, key@) && dict.items@[i].key == Some(*key_expr)
                        && dict.items@[i].value == *value;
                assert forall|j: int| #[trigger] is_first_item(*dict, j, key@) implies j == i by {
                    if i < j {
                        assert(has_key(*dict, i, key@));
                    }
                    if j < i {
                        assert(has_key(*dict, j, key@));
                    }
                }
            }
            match value {
                Expr::StringLiteral { text, .. } => Some((key_expr, text.as_str())),
                _ => None,
            }
        },
        None => {
            assert forall|j: int| !#[trigger] is_first_item(*dict, j, key@) by {
                if is_first_item(*dict, j, key@) {
                    assert(has_key(*dict, j, key@));
                }
            }
            None
        },
    }
}

/// Anchor range for diagnostics about something missing from the manifest (a required key, a
/// README next to it): the `"name"` key when present, else the opening `{`. Reporting on the whole
/// dict would span every line of the manifest in editors.
pub fn manifest_anchor_range(dict: &ExprDict) -> (range: TextRange)
    requires
        has_item(*dict, "name"@) || dict.range.start < u32::MAX,
    ensures
        !has_item(*dict, "name"@) ==> range == (TextRange {
            start: dict.range.start,
            end: (dict.range.start + 1) as u32,
        }),
        has_item(*dict, "name"@) ==> exists|i: int| #[trigger]
            is_first_item(*dict, i, "name"@) && range == dict.items@[i].key->0.place(),
{
    match manifest_item(dict, "name") {
        None => TextRange::at(dict.range.start, 1),
        Some((key, _value)) => key.range(),
    }
}

/// Returns `true` if every key and value in `dict` is something Python's `ast.literal_eval` would
/// accept (recursively): a constant, or a list, tuple, set or dict built purely from such
/// constants. Manifests are read with `ast.literal_eval`, so the manifest rules skip a file in
/// which a value uses `or`, a call or a name: nothing ever evaluates what it holds.
pub fn is_dict_literal_evaluable(dict: &ExprDict) -> (yes: bool)
    ensures
        yes == dict_evaluable(*dict),
    decreases dict,
{
    let mut i: usize = 0;
    while i < dict.items.len()
        invariant
            0 <= i <= dict.items@.len(),
            forall|j: int|
                0 <= j < i ==> {
                    &&& (#[trigger] dict.items@[j]).key is Some
                    &&& literal_evaluable(dict.items@[j].key->0)
                    &&& literal_evaluable(dict.items@[j].value)
                },
        decreases dict.items@.len() - i,
    {
        let item = &dict.items[i];
        assert(decreases_to!(dict => dict.items@[i as int]));
        match &item.key {
            Some(key) => {
                if !is_literal_evaluable_expr(key) {
                    return false;
                }
            },
            None => {
                return false;
            },
        }
        if !is_literal_evaluable_expr(&item.value) {
            return false;
        }
        i += 1;
    }
    true
}

/// Whether every element can be read without running any code.
fn all_literal_evaluable(elts: &Vec<Expr>) -> (yes: bool)
    ensures
        yes == forall|i: int| 0 <= i < elts@.len() ==> literal_evaluable(#[trigger] elts@[i]),
    decreases elts,
{
    let mut i: usize = 0;
    while i < elts.len()
        invariant
            0 <= i <= elts@.len(),
            forall|j: int| 0 <= j < i ==> literal_evaluable(#[trigger] elts@[j]),
        decreases elts@.len() - i,
    {
        assert(decreases_to!(elts => elts@[i as int]));
        if !is_literal_evaluable_expr(&elts[i]) {
            return false;
        }
        i += 1;
    }
    true
}

/// Returns `true` if `expr` is something Python's `ast.literal_eval` would accept: a constant, a
/// number behind a leading `+` or `-`, or a display built purely from such values.
pub fn is_literal_evaluable_expr(expr: &Expr) -> (yes: bool)
    ensures
        yes == literal_evaluable(*expr),
    decreases expr,
{
    match expr {
        Expr::StringLiteral { .. } => true,
        Expr::BytesLiteral { .. } => true,
        Expr::NumberLiteral { .. } => true,
        Expr::BooleanLiteral { .. } => true,
        Expr::NoneLiteral { .. } => true,
        Expr::EllipsisLiteral { .. } => true,
        Expr::UnaryOp { op, operand, .. } => {
            let signed = match op {
                UnaryOp::USub => true,
                UnaryOp::UAdd => true,
                _ => false,
            };
            let number = match &**operand {
                Expr::NumberLiteral { .. } => true,
                _ => false,
            };
            signed && number
        },
        Expr::List(list) => all_literal_evaluable(&list.elts),
        Expr::Tuple { elts, .. } => all_literal_evaluable(elts),
        Expr::SetDisplay { elts, .. } => all_literal_evaluable(elts),
        Expr::Dict(dict) => is_dict_literal_evaluable(dict),
        _ => false,
    }
}

/// Returns `true` if `dict`, the dict literal that is being visited in `scope`, is the manifest's
/// top-level dict: `path` is a manifest file, the scope is that of the module, the dict stands in
/// no other expression (it is not the `"assets"` sub-dict), and the whole of it can be evaluated.
///
/// Without the question about the parent expression, rules would also fire on every nested dict
/// literal in the manifest, since nested literals stay in module scope too.
pub fn is_manifest_root_dict(
    scope: &ScopeKind,
    has_parent_expression: bool,
    dict: &ExprDict,
    path: &SourcePath,
) -> (yes: bool)
    ensures
        yes == is_root_dict(*scope, has_parent_expression, *dict, *path),
{
    let in_module = match scope {
        ScopeKind::Module => true,
        _ => false,
    };
    is_manifest_file(path) && in_module && !has_parent_expression && is_dict_literal_evaluable(dict)
}

/// Constants can be read without running any code.
pub proof fn law_constants_are_evaluable(expr: Expr)
    requires
        expr is StringLiteral || expr is BytesLiteral || expr is NumberLiteral
            || expr is BooleanLiteral || expr is NoneLiteral || expr is EllipsisLiteral,
    ensures
        literal_evaluable(expr),
{
}

/// A sign is read in front of a number and of nothing else, and no other operator is.
pub proof fn law_only_numbers_take_a_sign(expr: Expr)
    ensures
        expr matches Expr::UnaryOp { op, operand, .. } ==> (literal_evaluable(expr) <==> {
            &&& op is USub || op is UAdd
            &&& *operand is NumberLiteral
        }),
{
}

/// Names, accesses, calls, unpacked values and everything else that takes running code cannot be
/// read.
pub proof fn law_code_is_not_evaluable(expr: Expr)
    requires
        expr is Name || expr is Attribute || expr is Subscript || expr is Call || expr is Starred
            || expr is Other,
    ensures
        !literal_evaluable(expr),
{
}

/// A display with one more element can be read exactly if the shorter one and the element can, and
/// the empty display can.
pub proof fn law_displays_are_evaluable_element_by_element(
    shorter: Expr,
    longer: Expr,
    element: Expr,
)
    requires
        match (shorter, longer) {
            (Expr::List(a), Expr::List(b)) => b.elts@ == a.elts@.push(element),
            (Expr::Tuple { elts: a, .. }, Expr::Tuple { elts: b, .. }) => b@ == a@.push(element),
            (Expr::SetDisplay { elts: a, .. }, Expr::SetDisplay { elts: b, .. }) => b@ == a@.push(
                element,
            ),
            _ => false,
        },
    ensures
        literal_evaluable(longer) <==> literal_evaluable(shorter) && literal_evaluable(element),
        match shorter {
            Expr::List(list) => list.elts@.len() == 0 ==> literal_evaluable(shorter),
            Expr::Tuple { elts, .. } => elts@.len() == 0 ==> literal_evaluable(shorter),
            Expr::SetDisplay { elts, .. } => elts@.len() == 0 ==> literal_evaluable(shorter),
            _ => true,
        },
{
    match (shorter, longer) {
        (Expr::List(a), Expr::List(b)) => lemma_pushed(a.elts@, b.elts@, element),
        (Expr::Tuple { elts: a, .. }, Expr::Tuple { elts: b, .. }) => lemma_pushed(a@, b@, element),
        (
            Expr::SetDisplay { elts: a, .. },
            Expr::SetDisplay { elts: b, .. },
        ) => lemma_pushed(a@, b@, element),
        _ => {},
    }
}

/// All of the longer sequence can be read if all of the shorter one and the element can.
proof fn lemma_pushed(shorter: Seq<Expr>, longer: Seq<Expr>, element: Expr)
    requires
        longer == shorter.push(element),
    ensures
        (forall|i: int| 0 <= i < longer.len() ==> literal_evaluable(#[trigger] longer[i])) <==> (
        forall|i: int| 0 <= i < shorter.len() ==> literal_evaluable(#[trigger] shorter[i]))
            && literal_evaluable(element),
{
    assert(longer[shorter.len() as int] == element);
    assert forall|i: int| 0 <= i < shorter.len() implies #[trigger] shorter[i] == longer[i] by {}
    if forall|i: int| 0 <= i < longer.len() ==> literal_evaluable(#[trigger] longer[i]) {
        assert forall|i: int| 0 <= i < shorter.len() implies literal_evaluable(
            #[trigger] shorter[i],
        ) by {
            assert(literal_evaluable(longer[i]));
        }
    }
}

/// A dict with one more item can be read exactly if the shorter one, the key of the item and its
/// value can, and an item without a key cannot; the empty dict can. A dict is read the same inside
/// another expression.
pub proof fn law_dicts_are_evaluable_item_by_item(
    shorter: ExprDict,
    longer: ExprDict,
    item: DictItem,
)
    requires
        longer.items@ == shorter.items@.push(item),
    ensures
        dict_evaluable(longer) <==> dict_evaluable(shorter) && (item.key matches Some(key)
            && literal_evaluable(key)) && literal_evaluable(item.value),
        shorter.items@.len() == 0 ==> dict_evaluable(shorter),
        literal_evaluable(Expr::Dict(longer)) == dict_evaluable(longer),
{
    assert(longer.items@[shorter.items@.len() as int] == item);
    assert forall|i: int| 0 <= i < shorter.items@.len() implies #[trigger] shorter.items@[i]
        == longer.items@[i] by {}
    if dict_evaluable(longer) {
        assert forall|i: int| 0 <= i < shorter.items@.len() implies {
            &&& (#[trigger] shorter.items@[i]).key is Some
            &&& literal_evaluable(shorter.items@[i].key->0)
            &&& literal_evaluable(shorter.items@[i].value)
        } by {
            assert(longer.items@[i].key is Some);
        }
    }
}

/// The first item under a key stays the first whatever items come behind it, and an item becomes
/// the first only where no other is; keys are string literals.
pub proof fn law_items_behind_the_first_do_not_matter(
    shorter: ExprDict,
    longer: ExprDict,
    item: DictItem,
    key: Seq<char>,
    i: int,
)
    requires
        longer.items@ == shorter.items@.push(item),
    ensures
        0 <= i < shorter.items@.len() ==> (is_first_item(longer, i, key) <==> is_first_item(
            shorter,
            i,
            key,
        )),
        is_first_item(longer, shorter.items@.len() as int, key) <==> !has_item(shorter, key) && (
        item.key matches Some(Expr::StringLiteral { text, .. }) && text@ == key),
        has_item(longer, key) <==> has_item(shorter, key) || (item.key matches Some(
            Expr::StringLiteral { text, .. },
        ) && text@ == key),
        shorter.items@.len() == 0 ==> !has_item(shorter, key),
        !(0 <= i < longer.items@.len()) ==> !is_first_item(longer, i, key),
{
    let n = shorter.items@.len() as int;
    assert(longer.items@[n] == item);
    assert forall|j: int| 0 <= j < n implies has_key(longer, j, key) == #[trigger] has_key(
        shorter,
        j,
        key,
    ) by {
        assert(longer.items@[j] == shorter.items@[j]);
    }
    assert forall|j: int| 0 <= j < n implies #[trigger] has_key(longer, j, key) == has_key(
        shorter,
        j,
        key,
    ) by {
        assert(longer.items@[j] == shorter.items@[j]);
    }
    assert(has_key(longer, n, key) <==> (item.key matches Some(Expr::StringLiteral { text, .. })
        && text@ == key));
    if has_item(shorter, key) {
        let j = choose|j: int| 0 <= j < n && #[trigger] has_key(shorter, j, key);
        assert(has_key(longer, j, key));
    }
    if has_item(longer, key) {
        let j = choose|j: int| 0 <= j < n + 1 && #[trigger] has_key(longer, j, key);
        if j < n {
            assert(has_key(shorter, j, key));
        }
    }
}

/// Exactly a dict in a manifest file, in the scope of the module, inside no other expression and
/// with nothing but readable keys and values is the top-level dict of a manifest.
pub proof fn law_root_dicts(
    scope: ScopeKind,
    has_parent_expression: bool,
    dict: ExprDict,
    path: SourcePath,
)
    ensures
        is_root_dict(scope, has_parent_expression, dict, path) ==> is_manifest(path)
            && scope is Module && !has_parent_expression && literal_evaluable(Expr::Dict(dict)),
        is_manifest(path) && literal_evaluable(Expr::Dict(dict)) ==> is_root_dict(
            ScopeKind::Module,
            false,
            dict,
            path,
        ),
{
}

} // verus!

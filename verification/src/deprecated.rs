//! Calls to ORM methods that Odoo has deprecated.

use vstd::prelude::*;

use crate::ast::{Expr, ExprCall, ScopeKind, Scopes};
use crate::classes::is_odoo_model_class;
#[allow(unused_imports)]
use crate::classes::is_model;
use crate::path::{is_structural_non_code_file, ManifestProbe, SourcePath};
#[allow(unused_imports)]
use crate::path::{
    addon_depth, is_structural, law_answers_come_from_inside_the_addon,
    law_without_manifests_nothing_is_structural, PathComponent,
};
use crate::text::{is_listed, same_text, Edit, TextRange};
#[allow(unused_imports)]
use crate::text::lists;
use crate::version::{odoo_version_applies, OdooVersion};
#[allow(unused_imports)]
use crate::version::{law_texts_tell_the_version, version_applies};

verus! {

/// The ORM methods that hand back the same recordset they were called on, so the model survives
/// them and `self.env["account.move"].sudo().search([])` still runs against `account.move`.
///
/// The list is closed on purpose. What any other method returns cannot be inferred from a single
/// file, so a chain through an unlisted name stops being a recordset as far as the rules are
/// concerned.
pub const RECORDSET_PASSTHROUGH_METHODS: [&'static str; 6] = [
    "exists",
    "sudo",
    "with_company",
    "with_context",
    "with_env",
    "with_user",
];

/// A call to a deprecated ORM method, as it is reported.
#[derive(Debug)]
pub struct DeprecatedOdooMethodCall {
    pub name: String,
    pub since: OdooVersion,
    /// The version that dropped the method, set only when the configured `odoo-version` is
    /// already at or past it, so that the message can say "removed" instead of "deprecated".
    pub removed: Option<OdooVersion>,
    pub replacement: String,
    pub rename: Option<String>,
}

/// Whether a fix may be applied without a look at the code.
#[derive(Clone, Copy, Debug, PartialEq, Eq, Structural)]
pub enum Applicability {
    Safe,
    Unsafe,
}

/// A change that resolves a diagnostic.
#[derive(Debug)]
pub struct Fix {
    pub applicability: Applicability,
    pub edit: Edit,
}

/// What is reported, where, and how to resolve it.
#[derive(Debug)]
pub struct Diagnostic {
    pub violation: DeprecatedOdooMethodCall,
    pub range: TextRange,
    pub fix: Option<Fix>,
}

/// An ORM method deprecated by Odoo, and how to move off it.
#[derive(Clone, Copy, Debug)]
pub struct DeprecatedMethod {
    /// The deprecated method name.
    pub name: &'static str,
    /// The Odoo version that deprecated it.
    pub since: OdooVersion,
    /// The Odoo version that deleted the method outright. Past it the call raises
    /// `AttributeError` rather than warning, which the message says instead.
    pub removed: Option<OdooVersion>,
    /// The last Odoo version the deprecation applies to. Only `read_group` needs one: Odoo brought
    /// the name back in 20.0 for the new API, so from there on the call is correct again and must
    /// not be reported.
    pub until: Option<OdooVersion>,
    /// Prose naming the replacement, appended to the diagnostic message.
    pub replacement: &'static str,
    /// The new method name, set only where the deprecated method is a pure one-line delegation
    /// with the same signature, so that swapping the name is enough. Emitted as an unsafe fix,
    /// because the rule cannot prove the receiver really is a recordset.
    pub rename: Option<&'static str>,
}

impl DeprecatedOdooMethodCall {
    /// The message of the diagnostic.
    pub open spec fn message_text(self) -> Seq<char> {
        match self.removed {
            Some(removed) => "`"@ + self.name@ + "` was removed in Odoo "@ + removed.text()
                + " (deprecated since "@ + self.since.text()
                + "). The call raises `AttributeError`. "@ + self.replacement@,
            None => "`"@ + self.name@ + "` is deprecated since Odoo "@ + self.since.text() + ". "@
                + self.replacement@,
        }
    }

    /// The message of the diagnostic: where the version that dropped the method is set, that it
    /// was removed and the call raises `AttributeError`, and otherwise that it is deprecated.
    pub fn message(&self) -> (text: String)
        ensures
            text@ == self.message_text(),
    {
        let mut text: String = "`".to_owned();
        text.append(self.name.as_str());
        match &self.removed {
            Some(removed) => {
                text.append("` was removed in Odoo ");
                text.append(removed.to_text().as_str());
                text.append(" (deprecated since ");
                text.append(self.since.to_text().as_str());
                text.append("). The call raises `AttributeError`. ");
            },
            None => {
                text.append("` is deprecated since Odoo ");
                text.append(self.since.to_text().as_str());
                text.append(". ");
            },
        }
        text.append(self.replacement.as_str());
        text
    }

    /// The title of the fix, where there is one.
    pub fn fix_title(&self) -> (title: Option<String>)
        ensures
            title is Some <==> self.rename is Some,
            title matches Some(text) ==> text@ == "Replace with `"@ + self.rename->0@ + "`"@,
    {
        match &self.rename {
            Some(rename) => Some("Replace with `".to_owned().concat(rename.as_str()).concat("`")),
            None => None,
        }
    }
}

/// Methods marked `@api.deprecated` in the core of Odoo's ORM.
///
/// Addon-specific deprecations are left out, since their names are not distinctive enough to match
/// on a receiver of unknown model. The access and cycle methods deprecated in 18.0 and 19.0 were
/// deleted after 19.0 was cut; the `odoo-version` option takes the stable series a project runs,
/// so every version named here is an `x.0`.
pub open spec fn deprecated_methods() -> Seq<DeprecatedMethod> {
    seq![
        DeprecatedMethod {
            name: "check_access_rights",
            since: OdooVersion { major: 18, minor: 0 },
            removed: Some(OdooVersion { major: 20, minor: 0 }),
            until: None,
            replacement: "Use `check_access` instead, or `has_access` where a boolean is needed; an override belongs in `_check_access`.",
            rename: None,
        },
        DeprecatedMethod {
            name: "check_access_rule",
            since: OdooVersion { major: 18, minor: 0 },
            removed: Some(OdooVersion { major: 20, minor: 0 }),
            until: None,
            replacement: "Use `check_access` instead; an override belongs in `_check_access`.",
            rename: Some("check_access"),
        },
        DeprecatedMethod {
            name: "_filter_access_rules",
            since: OdooVersion { major: 18, minor: 0 },
            removed: Some(OdooVersion { major: 20, minor: 0 }),
            until: None,
            replacement: "Use `_filtered_access` instead; an override belongs in `_check_access`.",
            rename: Some("_filtered_access"),
        },
        DeprecatedMethod {
            name: "_filter_access_rules_python",
            since: OdooVersion { major: 18, minor: 0 },
            removed: Some(OdooVersion { major: 20, minor: 0 }),
            until: None,
            replacement: "Use `_filtered_access` instead; an override belongs in `_check_access`.",
            rename: Some("_filtered_access"),
        },
        DeprecatedMethod {
            name: "_check_recursion",
            since: OdooVersion { major: 18, minor: 0 },
            removed: Some(OdooVersion { major: 20, minor: 0 }),
            until: None,
            replacement: "Use `not _has_cycle(...)` instead — the result is inverted.",
            rename: None,
        },
        DeprecatedMethod {
            name: "_check_m2m_recursion",
            since: OdooVersion { major: 18, minor: 0 },
            removed: Some(OdooVersion { major: 20, minor: 0 }),
            until: None,
            replacement: "Use `not _has_cycle(...)` instead — the result is inverted.",
            rename: None,
        },
        DeprecatedMethod {
            name: "read_group",
            since: OdooVersion { major: 19, minor: 0 },
            removed: None,
            until: Some(OdooVersion { major: 19, minor: 0 }),
            replacement: "Use `_read_group` in backend code, or `formatted_read_group` for a formatted result.",
            rename: None,
        },
        DeprecatedMethod {
            name: "check_field_access_rights",
            since: OdooVersion { major: 19, minor: 0 },
            removed: Some(OdooVersion { major: 20, minor: 0 }),
            until: None,
            replacement: "Use `_check_field_access`, or `fields_get` to list the allowed fields.",
            rename: None,
        },
        DeprecatedMethod {
            name: "toggle_active",
            since: OdooVersion { major: 19, minor: 0 },
            removed: Some(OdooVersion { major: 20, minor: 0 }),
            until: None,
            replacement: "Use `action_archive` or `action_unarchive` depending on the intent.",
            rename: None,
        },
    ]
}

/// Methods marked `@api.deprecated` in the core of Odoo's ORM.
pub fn deprecated_orm_methods() -> (methods: [DeprecatedMethod; 9])
    ensures
        methods@ == deprecated_methods(),
{
    let after_19: Option<OdooVersion> = Some(OdooVersion::new(20, 0));
    let methods: [DeprecatedMethod; 9] = [
        DeprecatedMethod {
            name: "check_access_rights",
            since: OdooVersion::new(18, 0),
            removed: after_19,
            until: None,
            // Not a rename: `raise_exception=False` has to become `has_access`, and the deprecated
            // method checks the model through `self.browse()` rather than the records in `self`.
            replacement: "Use `check_access` instead, or `has_access` where a boolean is needed; an override belongs in `_check_access`.",
            rename: None,
        },
        DeprecatedMethod {
            name: "check_access_rule",
            since: OdooVersion::new(18, 0),
            removed: after_19,
            until: None,
            replacement: "Use `check_access` instead; an override belongs in `_check_access`.",
            rename: Some("check_access"),
        },
        DeprecatedMethod {
            name: "_filter_access_rules",
            since: OdooVersion::new(18, 0),
            removed: after_19,
            until: None,
            replacement: "Use `_filtered_access` instead; an override belongs in `_check_access`.",
            rename: Some("_filtered_access"),
        },
        DeprecatedMethod {
            name: "_filter_access_rules_python",
            since: OdooVersion::new(18, 0),
            removed: after_19,
            until: None,
            replacement: "Use `_filtered_access` instead; an override belongs in `_check_access`.",
            rename: Some("_filtered_access"),
        },
        DeprecatedMethod {
            name: "_check_recursion",
            since: OdooVersion::new(18, 0),
            removed: after_19,
            until: None,
            // Not a rename: `_check_recursion` returns `not self._has_cycle(...)`, so the caller
            // has to flip the condition too.
            replacement: "Use `not _has_cycle(...)` instead — the result is inverted.",
            rename: None,
        },
        DeprecatedMethod {
            name: "_check_m2m_recursion",
            since: OdooVersion::new(18, 0),
            removed: after_19,
            until: None,
            replacement: "Use `not _has_cycle(...)` instead — the result is inverted.",
            rename: None,
        },
        DeprecatedMethod {
            name: "read_group",
            since: OdooVersion::new(19, 0),
            // Deleted alongside the others, but 20.0 reintroduced the name as the public spelling
            // of `_read_group`, so no stable release ever ships without it: hence a plain upper
            // bound rather than a removal.
            removed: None,
            until: Some(OdooVersion::new(19, 0)),
            replacement: "Use `_read_group` in backend code, or `formatted_read_group` for a formatted result.",
            rename: None,
        },
        DeprecatedMethod {
            name: "check_field_access_rights",
            since: OdooVersion::new(19, 0),
            removed: after_19,
            until: None,
            replacement: "Use `_check_field_access`, or `fields_get` to list the allowed fields.",
            rename: None,
        },
        DeprecatedMethod {
            name: "toggle_active",
            since: OdooVersion::new(19, 0),
            removed: after_19,
            until: None,
            replacement: "Use `action_archive` or `action_unarchive` depending on the intent.",
            rename: None,
        },
    ];
    assert(methods@ =~= deprecated_methods());
    methods
}

/// The first of the methods that is called `name`.
pub open spec fn find_method(methods: Seq<DeprecatedMethod>, name: Seq<char>) -> Option<
    DeprecatedMethod,
>
    decreases methods.len(),
{
    if methods.len() == 0 {
        None
    } else if methods[0].name@ == name {
        Some(methods[0])
    } else {
        find_method(methods.skip(1), name)
    }
}

/// The expression is an `<anything>.env[...]` subscript, or a chain of recordset-preserving calls
/// on one.
pub open spec fn environment_subscript(expr: Expr) -> bool
    decreases expr,
{
    match expr {
        Expr::Subscript { value, .. } => *value matches Expr::Attribute { attr, .. }
            && attr.name@ == "env"@,
        Expr::Call(call) => match *call.func {
            Expr::Attribute { value, attr, .. } => lists(
                RECORDSET_PASSTHROUGH_METHODS@,
                attr.name@,
            ) && environment_subscript(*value),
            _ => false,
        },
        _ => false,
    }
}

/// The scope is that of a model class.
pub open spec fn is_model_scope(scope: ScopeKind) -> bool {
    scope matches ScopeKind::Class(class_def) && is_model(class_def)
}

/// The current scope or one around it is that of a model class.
pub open spec fn in_model_class(scopes: Scopes) -> bool {
    is_model_scope(scopes.current) || exists|i: int|
        0 <= i < scopes.enclosing@.len() && is_model_scope(#[trigger] scopes.enclosing@[i])
}

/// The expression is a call of the plain name `super`.
pub open spec fn is_super_call(expr: Expr) -> bool {
    expr matches Expr::Call(call) && call.func.is_name("super"@)
}

/// The version that dropped the method, if the configured version is known to be at or past it.
pub open spec fn removed_by(
    configured: Option<OdooVersion>,
    method: DeprecatedMethod,
) -> Option<OdooVersion> {
    match (method.removed, configured) {
        (Some(removed), Some(version)) => if version.is_at_least(removed) {
            Some(removed)
        } else {
            None
        },
        _ => None,
    }
}

/// A call of `method` on `receiver` is reported: the method is deprecated in the configured
/// version, the call stands directly in a function, the function is in a model class or else the
/// receiver is an environment subscript and the file is not a test, migration or upgrade script,
/// and the call is not how an override of the method calls the method it overrides.
pub open spec fn is_reported(
    configured: Option<OdooVersion>,
    scopes: Scopes,
    receiver: Expr,
    method: DeprecatedMethod,
    path: SourcePath,
    probes: Seq<ManifestProbe>,
) -> bool {
    &&& version_applies(configured, Some(method.since), method.until)
    &&& scopes.current matches ScopeKind::Function(function_def) && {
        &&& in_model_class(scopes) || (environment_subscript(receiver) && !is_structural(
            path,
            probes,
        ))
        &&& !(function_def.name@ == method.name@ && is_super_call(receiver))
    }
}

/// The deprecated method that `call` calls, if the call is reported.
pub open spec fn reported_method(
    configured: Option<OdooVersion>,
    scopes: Scopes,
    call: ExprCall,
    path: SourcePath,
    probes: Seq<ManifestProbe>,
) -> Option<DeprecatedMethod> {
    match *call.func {
        Expr::Attribute { value, attr, .. } => match find_method(
            deprecated_methods(),
            attr.name@,
        ) {
            Some(method) => if is_reported(configured, scopes, *value, method, path, probes) {
                Some(method)
            } else {
                None
            },
            None => None,
        },
        _ => None,
    }
}

/// The violation says of `method` what there is to say under the configured version.
pub open spec fn describes(
    violation: DeprecatedOdooMethodCall,
    method: DeprecatedMethod,
    configured: Option<OdooVersion>,
) -> bool {
    &&& violation.name@ == method.name@
    &&& violation.since == method.since
    &&& violation.removed == removed_by(configured, method)
    &&& violation.replacement@ == method.replacement@
    &&& match (violation.rename, method.rename) {
        (Some(found), Some(rename)) => found@ == rename@,
        (None, None) => true,
        _ => false,
    }
}

/// The fix puts the new name in the place of `range`, unsafely, if the method has a new name.
pub open spec fn fixes(fix: Option<Fix>, method: DeprecatedMethod, range: TextRange) -> bool {
    match (fix, method.rename) {
        (Some(found), Some(rename)) => found.applicability == Applicability::Unsafe
            && found.edit.replaces(range, rename@),
        (None, None) => true,
        _ => false,
    }
}

/// `diagnostic` is what there is to report of `call`: nothing where no method is reported, and
/// otherwise what there is to say of the method, at the place of its name, with its fix.
pub open spec fn is_report(
    diagnostic: Option<Diagnostic>,
    configured: Option<OdooVersion>,
    scopes: Scopes,
    call: ExprCall,
    path: SourcePath,
    probes: Seq<ManifestProbe>,
) -> bool {
    let reported = reported_method(configured, scopes, call, path, probes);
    &&& diagnostic is Some <==> reported is Some
    &&& diagnostic matches Some(found) ==> {
        &&& *call.func matches Expr::Attribute { attr, .. }
        &&& found.range == attr.range
        &&& describes(found.violation, reported->0, configured)
        &&& fixes(found.fix, reported->0, attr.range)
    }
}

/// Returns `true` if `expr` is an `<anything>.env["model.name"]` subscript, or a chain of
/// recordset-preserving calls on one, as in `request.env["res.partner"].sudo()`.
///
/// Only the names in [`RECORDSET_PASSTHROUGH_METHODS`] continue the chain. What any other method
/// returns cannot be inferred from a single file, so whatever is called on it proves nothing.
pub fn is_environment_subscript(expr: &Expr) -> (yes: bool)
    ensures
        yes == environment_subscript(*expr),
    decreases expr,
{
    match expr {
        Expr::Subscript { value, .. } => match &**value {
            Expr::Attribute { attr, .. } => same_text(attr.name.as_str(), "env"),
            _ => false,
        },
        Expr::Call(call) => match &*call.func {
            Expr::Attribute { value, attr, .. } => is_listed(
                RECORDSET_PASSTHROUGH_METHODS.as_slice(),
                attr.name.as_str(),
            ) && is_environment_subscript(value),
            _ => false,
        },
        _ => false,
    }
}

/// Whether the scope is that of a model class.
fn scope_is_model(scope: &ScopeKind) -> (yes: bool)
    ensures
        yes == is_model_scope(*scope),
{
    match scope {
        ScopeKind::Class(class_def) => is_odoo_model_class(class_def),
        _ => false,
    }
}

/// Whether the current scope or one around it is that of a model class.
fn is_in_model_class(scopes: &Scopes) -> (yes: bool)
    ensures
        yes == in_model_class(*scopes),
{
    if scope_is_model(&scopes.current) {
        return true;
    }
    let mut i: usize = 0;
    while i < scopes.enclosing.len()
        invariant
            0 <= i <= scopes.enclosing@.len(),
            forall|j: int| 0 <= j < i ==> !is_model_scope(#[trigger] scopes.enclosing@[j]),
        decreases scopes.enclosing@.len() - i,
    {
        if scope_is_model(&scopes.enclosing[i]) {
            return true;
        }
        i += 1;
    }
    false
}

/// The deprecated method called `name`.
fn look_up_method(name: &str) -> (found: Option<DeprecatedMethod>)
    ensures
        found == find_method(deprecated_methods(), name@),
{
    let methods = deprecated_orm_methods();
    let mut i: usize = 0;
    assert(methods@.skip(0) == methods@);
    while i < 9
        invariant
            0 <= i <= 9,
            methods@ == deprecated_methods(),
            methods@.len() == 9,
            find_method(methods@, name@) == find_method(methods@.skip(i as int), name@),
        decreases 9 - i,
    {
        let method = methods[i];
        assert(methods@.skip(i as int)[0] == method);
        assert(methods@.skip(i as int).skip(1) == methods@.skip(i + 1));
        if same_text(method.name, name) {
            return Some(method);
        }
        i += 1;
    }
    None
}

/// Reports a call to an ORM method that Odoo has deprecated, according to the configured
/// `odoo-version`.
///
/// A deprecated method raises a `DeprecationWarning` at runtime and will eventually be removed.
/// Most of the replacements are not drop-in, so each call site needs a look. On a
/// version at or past the removal the message says the call raises `AttributeError`; with no version
/// configured the rule cannot tell, and keeps the deprecation wording.
///
/// Inside a method of a model class the receiver is left unchecked: it is routinely a recordset
/// held in a local. Outside such a class the receiver has to prove itself instead, and an
/// `env[...]` subscript does, whatever the surrounding scope is.
///
/// An override of a deprecated method has to call `super().<same name>(...)` to keep the chain
/// working. The override itself is the thing to remove, not this call.
pub fn deprecated_odoo_method_call(
    odoo_version: Option<OdooVersion>,
    scopes: &Scopes,
    call: &ExprCall,
    path: &SourcePath,
    probes: &[ManifestProbe],
) -> (diagnostic: Option<Diagnostic>)
    ensures
        is_report(diagnostic, odoo_version, *scopes, *call, *path, probes@),
{
    // A bare `read_group(...)` is a plain function, not an ORM call.
    match &*call.func {
        Expr::Attribute { value, attr, .. } => {
            let method = match look_up_method(attr.name.as_str()) {
                Some(method) => method,
                None => {
                    return None;
                },
            };
            if !odoo_version_applies(odoo_version, Some(method.since), method.until) {
                return None;
            }
            // Say "removed" only once the project is known to be on a version without the method.
            let removed: Option<OdooVersion> = match (method.removed, odoo_version) {
                (Some(removed), Some(version)) => if version.at_least(&removed) {
                    Some(removed)
                } else {
                    None
                },
                _ => None,
            };
            let function_def = match &scopes.current {
                ScopeKind::Function(function_def) => function_def,
                _ => {
                    return None;
                },
            };
            if !is_in_model_class(scopes) && (!is_environment_subscript(value)
                || is_structural_non_code_file(path, probes)) {
                return None;
            }
            if same_text(function_def.name.as_str(), method.name) {
                if let Expr::Call(super_call) = &**value {
                    if super_call.func.names("super") {
                        return None;
                    }
                }
            }
            let rename: Option<String> = match method.rename {
                Some(rename) => Some(rename.to_owned()),
                None => None,
            };
            let fix: Option<Fix> = match method.rename {
                Some(rename) => Some(
                    Fix {
                        applicability: Applicability::Unsafe,
                        edit: Edit::range_replacement(rename.to_owned(), attr.range),
                    },
                ),
                None => None,
            };
            Some(
                Diagnostic {
                    violation: DeprecatedOdooMethodCall {
                        name: method.name.to_owned(),
                        since: method.since,
                        removed,
                        replacement: method.replacement.to_owned(),
                        rename,
                    },
                    range: attr.range,
                    fix,
                },
            )
        },
        _ => None,
    }
}

/// How long the names of the deprecated methods are, and what tells two of equal length apart.
proof fn lemma_method_lengths()
    ensures
        deprecated_methods()[0].name@.len() == 19,
        deprecated_methods()[1].name@.len() == 17,
        deprecated_methods()[2].name@.len() == 20,
        deprecated_methods()[3].name@.len() == 27,
        deprecated_methods()[4].name@.len() == 16,
        deprecated_methods()[4].name@[1] == 'c',
        deprecated_methods()[5].name@.len() == 20,
        deprecated_methods()[6].name@.len() == 10,
        deprecated_methods()[7].name@.len() == 25,
        deprecated_methods()[8].name@.len() == 13,
        deprecated_methods()[2].name@[1] == 'f',
        deprecated_methods()[5].name@[1] == 'c',
{
    reveal_strlit("check_access_rights");
    reveal_strlit("check_access_rule");
    reveal_strlit("_filter_access_rules");
    reveal_strlit("_filter_access_rules_python");
    reveal_strlit("_check_recursion");
    reveal_strlit("_check_m2m_recursion");
    reveal_strlit("read_group");
    reveal_strlit("check_field_access_rights");
    reveal_strlit("toggle_active");
}

/// The literal names of the deprecated methods are pairwise different.
proof fn lemma_method_names_differ()
    ensures
        forall|i: int, j: int|
            0 <= i < j < deprecated_methods().len() ==> (#[trigger] deprecated_methods()[i]).name@
                != (#[trigger] deprecated_methods()[j]).name@,
{
    lemma_method_lengths();
    let methods = deprecated_methods();
    // All lengths differ but two.
    assert forall|i: int, j: int| 0 <= i < j < methods.len() implies (#[trigger] methods[i]).name@
        != (#[trigger] methods[j]).name@ by {
        if methods[i].name@.len() == methods[j].name@.len() {
            assert(i == 2 && j == 5);
        }
    }
}

/// Where no two methods share a name, each is found by its own.
proof fn lemma_method_found(methods: Seq<DeprecatedMethod>, i: int)
    requires
        0 <= i < methods.len(),
        forall|j: int, k: int|
            0 <= j < k < methods.len() ==> (#[trigger] methods[j]).name@ != (
            #[trigger] methods[k]).name@,
    ensures
        find_method(methods, methods[i].name@) == Some(methods[i]),
    decreases methods.len(),
{
    if i > 0 {
        assert(methods[0].name@ != methods[i].name@);
        assert forall|j: int, k: int| 0 <= j < k < methods.skip(1).len() implies (
        #[trigger] methods.skip(1)[j]).name@ != (#[trigger] methods.skip(1)[k]).name@ by {
            assert(methods.skip(1)[j] == methods[j + 1]);
            assert(methods.skip(1)[k] == methods[k + 1]);
        }
        lemma_method_found(methods.skip(1), i - 1);
        assert(methods.skip(1)[i - 1] == methods[i]);
    }
}

/// What is found is one of the methods, under the name that was looked for.
proof fn lemma_found_method(methods: Seq<DeprecatedMethod>, name: Seq<char>)
    ensures
        find_method(methods, name) matches Some(method) ==> method.name@ == name && exists|i: int|
            0 <= i < methods.len() && #[trigger] methods[i] == method,
    decreases methods.len(),
{
    if methods.len() > 0 && methods[0].name@ != name {
        lemma_found_method(methods.skip(1), name);
        if let Some(method) = find_method(methods.skip(1), name) {
            let i = choose|i: int|
                0 <= i < methods.skip(1).len() && #[trigger] methods.skip(1)[i] == method;
            assert(methods[i + 1] == method);
        }
    }
}

/// Every deprecated method is looked up by its name, and no name stands for two of them.
pub proof fn law_each_method_is_found_by_its_name(i: int)
    requires
        0 <= i < deprecated_methods().len(),
    ensures
        find_method(deprecated_methods(), deprecated_methods()[i].name@) == Some(
            deprecated_methods()[i],
        ),
{
    lemma_method_names_differ();
    lemma_method_found(deprecated_methods(), i);
}

/// No new name that a fix puts in is itself that of a deprecated method.
pub proof fn law_new_names_are_not_deprecated(i: int)
    requires
        0 <= i < deprecated_methods().len(),
    ensures
        deprecated_methods()[i].rename matches Some(rename) ==> find_method(
            deprecated_methods(),
            rename@,
        ) is None,
{
    reveal_strlit("check_access");
    reveal_strlit("_filtered_access");
    lemma_method_lengths();
    if let Some(rename) = deprecated_methods()[i].rename {
        lemma_found_method(deprecated_methods(), rename@);
        assert(rename@ == "check_access"@ || rename@ == "_filtered_access"@);
    }
}

/// Every version in the table is an `x.0`, no method is removed before it is deprecated, and no
/// deprecation ends before it starts.
pub proof fn law_table_versions_are_stable_and_ordered(i: int)
    requires
        0 <= i < deprecated_methods().len(),
    ensures
        ({
            let method = deprecated_methods()[i];
            &&& method.since.minor == 0
            &&& method.removed matches Some(removed) ==> removed.minor == 0 && removed.is_at_least(
                method.since,
            )
            &&& method.until matches Some(until) ==> until.minor == 0 && until.is_at_least(
                method.since,
            )
        }),
{
}

/// Only a call of a method, by one of the deprecated names, in a version the deprecation covers,
/// is ever reported.
pub proof fn law_reports_are_of_deprecated_methods(
    configured: Option<OdooVersion>,
    scopes: Scopes,
    call: ExprCall,
    path: SourcePath,
    probes: Seq<ManifestProbe>,
)
    requires
        reported_method(configured, scopes, call, path, probes) is Some,
    ensures
        ({
            let method = reported_method(configured, scopes, call, path, probes)->0;
            &&& *call.func matches Expr::Attribute { attr, .. }
            &&& attr.name@ == method.name@
            &&& exists|i: int|
                0 <= i < deprecated_methods().len() && #[trigger] deprecated_methods()[i] == method
            &&& configured matches Some(version) ==> version.is_at_least(method.since) && (
            method.until matches Some(until) ==> until.is_at_least(version))
        }),
{
    if let Expr::Attribute { attr, .. } = *call.func {
        lemma_found_method(deprecated_methods(), attr.name@);
    }
}

/// A method is called removed only where the configured version is known to be at or past the one
/// that dropped it, and always there; a project that configures no version is only ever told of
/// deprecations.
pub proof fn law_removed_only_once_known(
    configured: Option<OdooVersion>,
    method: DeprecatedMethod,
)
    ensures
        configured is None ==> removed_by(configured, method) is None,
        removed_by(configured, method) is Some <==> (configured matches Some(version)
            && method.removed matches Some(removed) && version.is_at_least(removed)),
        removed_by(configured, method) is Some ==> removed_by(configured, method)
            == method.removed,
{
}

/// `read_group` came back in 20.0 and is not reported in any version after 19.0.
pub proof fn law_read_group_is_correct_again(
    version: OdooVersion,
    scopes: Scopes,
    call: ExprCall,
    path: SourcePath,
    probes: Seq<ManifestProbe>,
)
    requires
        *call.func matches Expr::Attribute { attr, .. } && attr.name@ == "read_group"@,
        version.is_at_least(OdooVersion { major: 19, minor: 0 }),
        version != (OdooVersion { major: 19, minor: 0 }),
    ensures
        reported_method(Some(version), scopes, call, path, probes) is None,
{
    law_each_method_is_found_by_its_name(6);
}

/// Outside a model class a call is reported only on a receiver that is an environment subscript,
/// and never in a test, migration or upgrade script; outside a function nothing is reported.
pub proof fn law_receivers_outside_models_prove_themselves(
    configured: Option<OdooVersion>,
    scopes: Scopes,
    call: ExprCall,
    path: SourcePath,
    probes: Seq<ManifestProbe>,
)
    requires
        reported_method(configured, scopes, call, path, probes) is Some,
    ensures
        scopes.current is Function,
        !in_model_class(scopes) ==> {
            &&& *call.func matches Expr::Attribute { value, .. }
            &&& environment_subscript(*value)
            &&& !is_structural(path, probes)
        },
{
}

/// In a function of a model class the receiver and the file have no part in whether a call is
/// reported, but for a receiver `super()` in an override.
pub proof fn law_receivers_in_models_are_unchecked(
    configured: Option<OdooVersion>,
    scopes: Scopes,
    receiver: Expr,
    method: DeprecatedMethod,
    path: SourcePath,
    probes: Seq<ManifestProbe>,
)
    requires
        in_model_class(scopes),
        scopes.current is Function,
        !is_super_call(receiver),
    ensures
        is_reported(configured, scopes, receiver, method, path, probes) == version_applies(
            configured,
            Some(method.since),
            method.until,
        ),
{
}

/// An override that calls the method it overrides through `super()` is never reported for it.
pub proof fn law_overrides_may_call_super(
    configured: Option<OdooVersion>,
    scopes: Scopes,
    call: ExprCall,
    path: SourcePath,
    probes: Seq<ManifestProbe>,
)
    requires
        match (*call.func, scopes.current) {
            (Expr::Attribute { value, attr, .. }, ScopeKind::Function(function_def)) => {
                is_super_call(*value) && function_def.name@ == attr.name@
            },
            _ => false,
        },
    ensures
        reported_method(configured, scopes, call, path, probes) is None,
{
    if let Expr::Attribute { attr, .. } = *call.func {
        lemma_found_method(deprecated_methods(), attr.name@);
    }
}

/// Manifests on disk only ever keep a call from being reported: what is reported with them is
/// reported as well where none is known.
pub proof fn law_manifests_only_silence(
    configured: Option<OdooVersion>,
    scopes: Scopes,
    call: ExprCall,
    path: SourcePath,
    probes: Seq<ManifestProbe>,
)
    requires
        reported_method(configured, scopes, call, path, probes) is Some,
    ensures
        reported_method(configured, scopes, call, path, Seq::empty()) == reported_method(
            configured,
            scopes,
            call,
            path,
            probes,
        ),
{
    law_without_manifests_nothing_is_structural(path);
}

/// Where the directory around an addon lies has no part in what is reported in its files.
pub proof fn law_reports_are_known_from_inside_the_addon(
    configured: Option<OdooVersion>,
    scopes: Scopes,
    call: ExprCall,
    above: Seq<PathComponent>,
    elsewhere: Seq<PathComponent>,
    below: Seq<PathComponent>,
    path: SourcePath,
    moved: SourcePath,
    probes: Seq<ManifestProbe>,
)
    requires
        path.components@ == above + below,
        moved.components@ == elsewhere + below,
        addon_depth(path.components@, probes, 0) is Some,
        addon_depth(path.components@, probes, 0)->0 >= above.len(),
    ensures
        reported_method(configured, scopes, call, moved, probes) == reported_method(
            configured,
            scopes,
            call,
            path,
            probes,
        ),
{
    law_answers_come_from_inside_the_addon(above, elsewhere, below, path, moved, probes);
}

/// A listed method called on an environment subscript gives one again, and a call of any other
/// method never does.
pub proof fn law_only_listed_methods_pass_the_recordset_on(call: ExprCall)
    ensures
        environment_subscript(Expr::Call(call)) <==> (*call.func matches Expr::Attribute {
            value,
            attr,
            ..
        } && lists(RECORDSET_PASSTHROUGH_METHODS@, attr.name@) && environment_subscript(*value)),
{
}

/// The call is of an attribute that is called like method `m` of the table.
pub open spec fn calls_method(call: ExprCall, m: int) -> bool {
    &&& 0 <= m < deprecated_methods().len()
    &&& *call.func matches Expr::Attribute { attr, .. }
    &&& attr.name@ == deprecated_methods()[m].name@
}

/// The call is found in the table.
proof fn lemma_called_method(call: ExprCall, m: int)
    requires
        calls_method(call, m),
    ensures
        find_method(deprecated_methods(), call.func->attr.name@) == Some(deprecated_methods()[m]),
{
    law_each_method_is_found_by_its_name(m);
}

/// A call of a deprecated method on an environment subscript, directly in a function of a file that
/// is no test, migration or upgrade script, is reported in every version that the deprecation
/// covers, whatever scopes enclose the function: in a controller as in a plain function.
pub proof fn law_calls_on_environments_are_reported(
    diagnostic: Option<Diagnostic>,
    configured: Option<OdooVersion>,
    scopes: Scopes,
    call: ExprCall,
    path: SourcePath,
    probes: Seq<ManifestProbe>,
    m: int,
)
    requires
        is_report(diagnostic, configured, scopes, call, path, probes),
        calls_method(call, m),
        version_applies(
            configured,
            Some(deprecated_methods()[m].since),
            deprecated_methods()[m].until,
        ),
        scopes.current is Function,
        environment_subscript(*call.func->Attribute_value),
        !is_structural(path, probes),
    ensures
        diagnostic is Some,
{
    lemma_called_method(call, m);
}

/// A call of a deprecated method, directly in a function that a model class encloses at any depth,
/// is reported in every version that the deprecation covers, whatever the receiver, the file and
/// the other scopes are, but for a call of `super()` in an override of the method.
pub proof fn law_calls_in_models_are_reported(
    diagnostic: Option<Diagnostic>,
    configured: Option<OdooVersion>,
    scopes: Scopes,
    call: ExprCall,
    path: SourcePath,
    probes: Seq<ManifestProbe>,
    m: int,
    e: int,
)
    requires
        is_report(diagnostic, configured, scopes, call, path, probes),
        calls_method(call, m),
        version_applies(
            configured,
            Some(deprecated_methods()[m].since),
            deprecated_methods()[m].until,
        ),
        0 <= e < scopes.enclosing@.len(),
        scopes.enclosing@[e] matches ScopeKind::Class(class_def) && is_model(class_def),
        scopes.current matches ScopeKind::Function(function_def) && (function_def.name@
            != deprecated_methods()[m].name@ || !(*call.func->Attribute_value matches Expr::Call(
            inner,
        ) && (*inner.func matches Expr::Name { id, .. } && id@ == "super"@))),
    ensures
        diagnostic is Some,
{
    lemma_called_method(call, m);
    assert(is_model_scope(scopes.enclosing@[e]));
}

/// Nothing is reported of a call that is no attribute, of a name that is not in the table, outside
/// the versions that the deprecation covers, outside a function, of `super()` in an override, nor
/// outside model classes on any other receiver than an environment subscript or in a test,
/// migration or upgrade script.
pub proof fn law_what_is_not_reported(
    diagnostic: Option<Diagnostic>,
    configured: Option<OdooVersion>,
    scopes: Scopes,
    call: ExprCall,
    path: SourcePath,
    probes: Seq<ManifestProbe>,
)
    requires
        is_report(diagnostic, configured, scopes, call, path, probes),
        diagnostic is Some,
    ensures
        *call.func is Attribute,
        scopes.current is Function,
        exists|m: int|
            0 <= m < deprecated_methods().len() && #[trigger] calls_method(call, m)
                && version_applies(
                configured,
                Some(deprecated_methods()[m].since),
                deprecated_methods()[m].until,
            ),
        (forall|e: int|
            0 <= e < scopes.enclosing@.len() ==> !((#[trigger] scopes.enclosing@[e]) matches
                ScopeKind::Class(class_def) && is_model(class_def))) ==> environment_subscript(
            *call.func->Attribute_value,
        ) && !is_structural(path, probes),
        *call.func->Attribute_value matches Expr::Call(inner) ==> ((*inner.func matches
            Expr::Name { id, .. } && id@ == "super"@) ==> scopes.current->Function_0.name@
            != call.func->attr.name@),
{
    lemma_found_method(deprecated_methods(), call.func->attr.name@);
    let method = reported_method(configured, scopes, call, path, probes)->0;
    let m = choose|m: int|
        0 <= m < deprecated_methods().len() && #[trigger] deprecated_methods()[m] == method;
    assert(calls_method(call, m));
    if in_model_class(scopes) {
        let e = choose|e: int|
            0 <= e < scopes.enclosing@.len() && is_model_scope(#[trigger] scopes.enclosing@[e]);
        assert(scopes.enclosing@[e] matches ScopeKind::Class(class_def) && is_model(class_def));
    }
}

/// What is reported stands at the place of the method's name, and tells the name, the version that
/// deprecated the method, the version that dropped it if the configured one is at or past that, and
/// what to use in its place. Exactly where the table has a new name there is a fix, which is unsafe
/// and puts the new name in the place of the old one.
pub proof fn law_what_reports_say(
    diagnostic: Option<Diagnostic>,
    configured: Option<OdooVersion>,
    scopes: Scopes,
    call: ExprCall,
    path: SourcePath,
    probes: Seq<ManifestProbe>,
    m: int,
)
    requires
        is_report(diagnostic, configured, scopes, call, path, probes),
        diagnostic is Some,
        calls_method(call, m),
    ensures
        ({
            let found = diagnostic->0;
            let method = deprecated_methods()[m];
            let place = call.func->attr.range;
            &&& found.range == place
            &&& found.violation.name@ == call.func->attr.name@
            &&& found.violation.since == method.since
            &&& found.violation.replacement@ == method.replacement@
            &&& found.violation.removed is Some <==> (configured matches Some(version)
                && method.removed matches Some(removed) && version.is_at_least(removed))
            &&& found.violation.removed is Some ==> found.violation.removed == method.removed
            &&& found.violation.rename is Some <==> method.rename is Some
            &&& found.fix is Some <==> method.rename is Some
            &&& method.rename matches Some(rename) ==> {
                &&& found.violation.rename->0@ == rename@
                &&& found.fix->0.applicability is Unsafe
                &&& found.fix->0.edit.range == place
                &&& found.fix->0.edit.content matches Some(content) && content@ == rename@
            }
        }),
{
    lemma_called_method(call, m);
}

/// Two calls of one name at one place are reported alike in two files and under two scopes where
/// both are reported at all: what is said rests on the name, its place and the configured version.
pub proof fn law_reports_rest_on_name_and_version(
    a: Option<Diagnostic>,
    b: Option<Diagnostic>,
    configured: Option<OdooVersion>,
    scopes: Scopes,
    other_scopes: Scopes,
    call: ExprCall,
    other_call: ExprCall,
    path: SourcePath,
    other_path: SourcePath,
    probes: Seq<ManifestProbe>,
    other_probes: Seq<ManifestProbe>,
)
    requires
        is_report(a, configured, scopes, call, path, probes),
        is_report(b, configured, other_scopes, other_call, other_path, other_probes),
        a is Some,
        b is Some,
        call.func->attr.name@ == other_call.func->attr.name@,
        call.func->attr.range == other_call.func->attr.range,
    ensures
        a->0.range == b->0.range,
        a->0.violation.message_text() == b->0.violation.message_text(),
        a->0.fix is Some <==> b->0.fix is Some,
{
}

/// Exactly a subscript of an attribute `env`, whatever that is an attribute of, and a call of one of
/// six methods on what is an environment subscript are environment subscripts.
pub proof fn law_environment_subscripts(expr: Expr)
    ensures
        match expr {
            Expr::Subscript { value, .. } => environment_subscript(expr) <==> (*value matches
                Expr::Attribute { attr, .. } && attr.name@ == "env"@),
            Expr::Call(call) => environment_subscript(expr) <==> (*call.func matches
                Expr::Attribute { value, attr, .. } && environment_subscript(*value) && (
            attr.name@ == "exists"@ || attr.name@ == "sudo"@ || attr.name@ == "with_company"@
                || attr.name@ == "with_context"@ || attr.name@ == "with_env"@ || attr.name@
                == "with_user"@)),
            _ => !environment_subscript(expr),
        },
{
    let names = RECORDSET_PASSTHROUGH_METHODS@;
    assert(names[0]@ == "exists"@ && names[1]@ == "sudo"@ && names[2]@ == "with_company"@
        && names[3]@ == "with_context"@ && names[4]@ == "with_env"@ && names[5]@ == "with_user"@);
    if let Expr::Call(call) = expr {
        if let Expr::Attribute { attr, .. } = *call.func {
            if lists(names, attr.name@) {
                let n = choose|n: int|
                    0 <= n < names.len() && (#[trigger] names[n])@ == attr.name@;
                assert(0 <= n < 6);
            }
        }
    }
}

/// `part` stands somewhere in `text`.
pub open spec fn says(text: Seq<char>, part: Seq<char>) -> bool {
    exists|head: Seq<char>, tail: Seq<char>| text == #[trigger] (head + part + tail)
}

/// A message begins with the name, ends with the replacement, and tells the version that deprecated
/// the method. Where the method is gone it tells the version that dropped it and that the call
/// raises `AttributeError`. Between the name and the replacement two messages with the same versions
/// are the same, and say nothing but this.
pub proof fn law_what_messages_say(a: DeprecatedOdooMethodCall, b: DeprecatedOdooMethodCall)
    requires
        a.since == b.since,
        a.removed == b.removed,
    ensures
        exists|middle: Seq<char>|
            {
                &&& a.message_text() == #[trigger] ("`"@ + a.name@ + middle + a.replacement@)
                &&& b.message_text() == "`"@ + b.name@ + middle + b.replacement@
                &&& says(middle, "deprecated since "@)
                &&& says(middle, a.since.text())
                &&& a.removed matches Some(removed) ==> {
                    &&& says(middle, "removed in Odoo "@ + removed.text())
                    &&& says(middle, "raises `AttributeError`"@)
                    &&& middle.len() == removed.text().len() + a.since.text().len() + 78
                }
                &&& a.removed is None ==> {
                    &&& says(middle, "is deprecated since Odoo "@ + a.since.text())
                    &&& middle.len() == a.since.text().len() + 29
                    &&& !middle.contains('A')
                }
            },
{
    match a.removed {
        Some(removed) => lemma_message_removed(a, b, removed),
        None => lemma_message_deprecated(a, b),
    }
}

proof fn lemma_says(text: Seq<char>, head: Seq<char>, part: Seq<char>, tail: Seq<char>)
    requires
        text =~= head + part + tail,
    ensures
        says(text, part),
{
    assert(text == head + part + tail);
}

/// Five texts one after the other, the literal ones cut where another text begins.
proof fn lemma_parts_of_removed(
    was: Seq<char>,
    removed_in: Seq<char>,
    gone: Seq<char>,
    bracket: Seq<char>,
    deprecated_since: Seq<char>,
    since: Seq<char>,
    the_call: Seq<char>,
    raises: Seq<char>,
    stop: Seq<char>,
)
    ensures
        ({
            let middle = (was + removed_in) + gone + (bracket + deprecated_since) + since + (
            the_call + raises + stop);
            &&& says(middle, deprecated_since)
            &&& says(middle, since)
            &&& says(middle, removed_in + gone)
            &&& says(middle, raises)
        }),
{
    let first = was + removed_in;
    let second = bracket + deprecated_since;
    let third = the_call + raises + stop;
    let middle = first + gone + second + since + third;
    lemma_says(middle, first + gone + bracket, deprecated_since, since + third);
    lemma_says(middle, first + gone + second, since, third);
    lemma_says(middle, was, removed_in + gone, second + since + third);
    lemma_says(middle, first + gone + second + since + the_call, raises, stop);
}

proof fn lemma_literals_of_removed()
    ensures
        "` was removed in Odoo "@ == "` was "@ + "removed in Odoo "@,
        " (deprecated since "@ == " ("@ + "deprecated since "@,
        "). The call raises `AttributeError`. "@ == "). The call "@ + "raises `AttributeError`"@
            + ". "@,
        "` was removed in Odoo "@.len() + " (deprecated since "@.len()
            + "). The call raises `AttributeError`. "@.len() == 78,
{
    reveal_strlit("` was removed in Odoo ");
    reveal_strlit("removed in Odoo ");
    reveal_strlit("` was ");
    reveal_strlit(" (deprecated since ");
    reveal_strlit(" (");
    reveal_strlit("deprecated since ");
    reveal_strlit("). The call raises `AttributeError`. ");
    reveal_strlit("). The call ");
    reveal_strlit("raises `AttributeError`");
    reveal_strlit(". ");
}

proof fn lemma_message_removed(
    a: DeprecatedOdooMethodCall,
    b: DeprecatedOdooMethodCall,
    removed: OdooVersion,
)
    requires
        a.since == b.since,
        a.removed == Some(removed),
        b.removed == Some(removed),
    ensures
        exists|middle: Seq<char>|
            {
                &&& a.message_text() == #[trigger] ("`"@ + a.name@ + middle + a.replacement@)
                &&& b.message_text() == "`"@ + b.name@ + middle + b.replacement@
                &&& says(middle, "deprecated since "@)
                &&& says(middle, a.since.text())
                &&& says(middle, "removed in Odoo "@ + removed.text())
                &&& says(middle, "raises `AttributeError`"@)
                &&& middle.len() == removed.text().len() + a.since.text().len() + 78
            },
{
    let since = a.since.text();
    let gone = removed.text();
    lemma_literals_of_removed();
    lemma_parts_of_removed(
        "` was "@,
        "removed in Odoo "@,
        gone,
        " ("@,
        "deprecated since "@,
        since,
        "). The call "@,
        "raises `AttributeError`"@,
        ". "@,
    );
    let middle = "` was removed in Odoo "@ + gone + " (deprecated since "@ + since
        + "). The call raises `AttributeError`. "@;
    assert(a.message_text() == "`"@ + a.name@ + middle + a.replacement@);
    assert(b.message_text() == "`"@ + b.name@ + middle + b.replacement@);
}

proof fn lemma_literals_of_deprecated()
    ensures
        "` is deprecated since Odoo "@ == "` is "@ + "deprecated since "@ + "Odoo "@,
        "` is deprecated since Odoo "@ == "` "@ + "is deprecated since Odoo "@,
        "` is deprecated since Odoo "@.len() + ". "@.len() == 29,
        !"` is deprecated since Odoo "@.contains('A'),
        !". "@.contains('A'),
{
    reveal_strlit("` is deprecated since Odoo ");
    reveal_strlit("is deprecated since Odoo ");
    reveal_strlit("` ");
    reveal_strlit("` is ");
    reveal_strlit("Odoo ");
    reveal_strlit("deprecated since ");
    reveal_strlit(". ");
}

proof fn lemma_message_deprecated(a: DeprecatedOdooMethodCall, b: DeprecatedOdooMethodCall)
    requires
        a.since == b.since,
        a.removed is None,
        b.removed is None,
    ensures
        exists|middle: Seq<char>|
            {
                &&& a.message_text() == #[trigger] ("`"@ + a.name@ + middle + a.replacement@)
                &&& b.message_text() == "`"@ + b.name@ + middle + b.replacement@
                &&& says(middle, "deprecated since "@)
                &&& says(middle, a.since.text())
                &&& says(middle, "is deprecated since Odoo "@ + a.since.text())
                &&& middle.len() == a.since.text().len() + 29
                &&& !middle.contains('A')
            },
{
    let since = a.since.text();
    let first = "` is deprecated since Odoo "@;
    let middle = first + since + ". "@;
    lemma_literals_of_deprecated();
    lemma_says(middle, "` is "@, "deprecated since "@, "Odoo "@ + since + ". "@);
    lemma_says(middle, first, since, ". "@);
    lemma_says(middle, "` "@, "is deprecated since Odoo "@ + since, ". "@);
    assert forall|i: int| 0 <= i < middle.len() implies middle[i] != 'A' by {
        if i < first.len() {
            assert(first.contains(first[i]));
        } else if i < first.len() + since.len() {
            law_texts_tell_the_version(a.since, i - first.len());
        } else {
            assert(". "@.contains(". "@[i - first.len() - since.len()]));
        }
    }
    assert(a.message_text() == "`"@ + a.name@ + middle + a.replacement@);
    assert(b.message_text() == "`"@ + b.name@ + middle + b.replacement@);
}

/// What the table says to use in the place of each method.
pub proof fn law_replacements(m: int)
    requires
        0 <= m < deprecated_methods().len(),
    ensures
        ({
            let name = deprecated_methods()[m].name@;
            let replacement = deprecated_methods()[m].replacement@;
            &&& name == "check_access_rights"@ ==> replacement
                == "Use `check_access` instead, or `has_access` where a boolean is needed; an override belongs in `_check_access`."@
            &&& name == "check_access_rule"@ ==> replacement
                == "Use `check_access` instead; an override belongs in `_check_access`."@
            &&& name == "_filter_access_rules"@ || name == "_filter_access_rules_python"@
                ==> replacement
                == "Use `_filtered_access` instead; an override belongs in `_check_access`."@
            &&& name == "_check_recursion"@ || name == "_check_m2m_recursion"@ ==> replacement
                == "Use `not _has_cycle(...)` instead — the result is inverted."@
            &&& name == "read_group"@ ==> replacement
                == "Use `_read_group` in backend code, or `formatted_read_group` for a formatted result."@
            &&& name == "check_field_access_rights"@ ==> replacement
                == "Use `_check_field_access`, or `fields_get` to list the allowed fields."@
            &&& name == "toggle_active"@ ==> replacement
                == "Use `action_archive` or `action_unarchive` depending on the intent."@
        }),
{
    let methods = deprecated_methods();
    lemma_method_names_differ();
    assert forall|i: int| 0 <= i < methods.len() && i != m implies (#[trigger] methods[i]).name@
        != methods[m].name@ by {
        if i < m {
            assert(methods[i].name@ != methods[m].name@);
        } else {
            assert(methods[m].name@ != methods[i].name@);
        }
    }
    assert(methods[0].name@ == "check_access_rights"@);
    assert(methods[1].name@ == "check_access_rule"@);
    assert(methods[2].name@ == "_filter_access_rules"@);
    assert(methods[3].name@ == "_filter_access_rules_python"@);
    assert(methods[4].name@ == "_check_recursion"@);
    assert(methods[5].name@ == "_check_m2m_recursion"@);
    assert(methods[6].name@ == "read_group"@);
    assert(methods[7].name@ == "check_field_access_rights"@);
    assert(methods[8].name@ == "toggle_active"@);
}

} // verus!

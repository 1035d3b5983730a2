//! Source paths and the addon that a file belongs to.

use vstd::prelude::*;

use crate::text::{is_listed, text_starts_with};
#[allow(unused_imports)]
use crate::text::{lists, texts};

verus! {

/// The file names Odoo accepts for a module manifest, current and legacy.
pub const MANIFEST_FILES: [&'static str; 2] = ["__manifest__.py", "__openerp__.py"];

/// Directory names Odoo itself requires, whose contents are never controllers.
///
/// These are not a naming convention: the test loader collects from a directory called `tests`,
/// and migration scripts are collected from `migrations` and `upgrades`. An addon cannot rename
/// them and keep working.
pub const ODOO_STRUCTURAL_NON_CODE_DIRS: [&'static str; 3] = ["tests", "migrations", "upgrades"];

/// Directory names that hold controllers. Unlike the ones above these are convention, so they
/// only ever narrow the file-level signal, never stand in for it.
pub const ODOO_CONTROLLER_DIRS: [&'static str; 2] = ["controller", "controllers"];

/// The byte that separates a file name from its extension.
pub const DOT: u8 = 46;

/// A component of a path.
#[derive(Debug)]
pub enum PathComponent {
    /// A drive or share prefix.
    Prefix,
    /// The root directory.
    RootDir,
    /// `.`
    CurDir,
    /// `..`
    ParentDir,
    /// A file or directory name, in a superset of UTF-8.
    Normal(Vec<u8>),
}

/// A path as its components, outermost first.
#[derive(Debug)]
pub struct SourcePath {
    pub components: Vec<PathComponent>,
}

/// Whether a directory holds a file under each of the [`MANIFEST_FILES`] names.
#[derive(Clone, Copy, Debug, PartialEq, Eq, Structural)]
pub struct ManifestProbe {
    pub manifest: bool,
    pub openerp: bool,
}

/// The text that the bytes encode, if they are valid UTF-8.
pub open spec fn utf8_text(bytes: Seq<u8>) -> Option<Seq<char>> {
    if vstd::utf8::valid_utf8(bytes) {
        Some(vstd::utf8::decode_utf8(bytes))
    } else {
        None
    }
}

/// Calls `std::str::from_utf8`.
///
/// Trusted: the call succeeds exactly on valid UTF-8, and the string holds what the bytes encode.
#[verifier::external_body]
fn from_utf8(bytes: &[u8]) -> (text: Option<&str>)
    ensures
        text is Some <==> utf8_text(bytes@) is Some,
        text matches Some(string) ==> string@ == utf8_text(bytes@)->0,
{
    std::str::from_utf8(bytes).ok()
}

/// The name that a path ends with, if it ends with one.
pub open spec fn last_name(components: Seq<PathComponent>) -> Option<Seq<u8>> {
    if components.len() == 0 {
        None
    } else {
        match components.last() {
            PathComponent::Normal(name) => Some(name@),
            _ => None,
        }
    }
}

/// The name that a path ends with, if it ends with one that is text.
pub open spec fn file_name_text(components: Seq<PathComponent>) -> Option<Seq<char>> {
    match last_name(components) {
        Some(name) => utf8_text(name),
        None => None,
    }
}

/// The path ends with one of the [`MANIFEST_FILES`] names.
pub open spec fn is_manifest(path: SourcePath) -> bool {
    file_name_text(path.components@) matches Some(name) && lists(MANIFEST_FILES@, name)
}

/// The index of the last dot in `name`, or a negative number where there is none.
pub open spec fn last_dot(name: Seq<u8>) -> int
    decreases name.len(),
{
    if name.len() == 0 {
        -1
    } else if name.last() == DOT {
        name.len() - 1
    } else {
        last_dot(name.drop_last())
    }
}

/// A file name without its extension: what stands before the last dot, or all of it where there
/// is no dot but a leading one.
pub open spec fn stem(name: Seq<u8>) -> Seq<u8> {
    if last_dot(name) <= 0 {
        name
    } else {
        name.take(last_dot(name))
    }
}

/// The stem of the name that a path ends with, if there is a name and the stem is text.
pub open spec fn file_stem_text(components: Seq<PathComponent>) -> Option<Seq<char>> {
    match last_name(components) {
        Some(name) => utf8_text(stem(name)),
        None => None,
    }
}

/// The text of a component below an addon, if it is text. No prefix and no root lies below one.
pub open spec fn component_text(component: PathComponent) -> Option<Seq<char>> {
    match component {
        PathComponent::CurDir => Some("."@),
        PathComponent::ParentDir => Some(".."@),
        PathComponent::Normal(name) => utf8_text(name@),
        PathComponent::Prefix => None,
        PathComponent::RootDir => None,
    }
}

/// The texts of those components that are text.
pub open spec fn component_texts(components: Seq<PathComponent>) -> Seq<Seq<char>>
    decreases components.len(),
{
    if components.len() == 0 {
        Seq::empty()
    } else {
        let rest = component_texts(components.drop_last());
        match component_text(components.last()) {
            Some(text) => rest.push(text),
            None => rest,
        }
    }
}

/// The path has a parent: it is not empty and does not end with a root or a prefix.
pub open spec fn has_parent(components: Seq<PathComponent>) -> bool {
    components.len() > 0 && !(components.last() is Prefix) && !(components.last() is RootDir)
}

/// A manifest was found in the `i`-th directory that was looked at.
pub open spec fn has_manifest(probes: Seq<ManifestProbe>, i: int) -> bool {
    0 <= i < probes.len() && (probes[i].manifest || probes[i].openerp)
}

/// How many components the nearest directory with a manifest has, going up from `components`,
/// where `probes[i]` is about its parent and each probe after that about the next directory up.
pub open spec fn addon_depth(
    components: Seq<PathComponent>,
    probes: Seq<ManifestProbe>,
    i: int,
) -> Option<int>
    decreases components.len(),
{
    if !has_parent(components) {
        None
    } else if has_manifest(probes, i) {
        Some(components.len() - 1)
    } else {
        addon_depth(components.drop_last(), probes, i + 1)
    }
}

/// The directory names between the addon and the file, if the file is in an addon.
pub open spec fn relative_dirs(path: SourcePath, probes: Seq<ManifestProbe>) -> Option<
    Seq<Seq<char>>,
> {
    match addon_depth(path.components@, probes, 0) {
        Some(depth) => Some(
            component_texts(path.components@.subrange(depth, path.components@.len() - 1)),
        ),
        None => None,
    }
}

/// Some name of `dirs` is one of `names`.
pub open spec fn any_listed(names: Seq<&str>, dirs: Seq<Seq<char>>) -> bool {
    exists|i: int| 0 <= i < dirs.len() && lists(names, #[trigger] dirs[i])
}

/// The file is in an addon, below one of the directories whose code Odoo runs outside the normal
/// request cycle.
pub open spec fn is_structural(path: SourcePath, probes: Seq<ManifestProbe>) -> bool {
    relative_dirs(path, probes) matches Some(dirs) && any_listed(
        ODOO_STRUCTURAL_NON_CODE_DIRS@,
        dirs,
    )
}

/// The file is where an addon keeps its controllers, with `dirs` between the addon and the file.
pub open spec fn is_controller_location(path: SourcePath, dirs: Seq<Seq<char>>) -> bool {
    any_listed(ODOO_CONTROLLER_DIRS@, dirs) || (file_stem_text(path.components@) matches Some(text)
        && "controller"@.is_prefix_of(text))
}

/// The name that a path ends with, if it ends with one.
fn file_name(path: &SourcePath) -> (name: Option<&Vec<u8>>)
    ensures
        name is Some <==> last_name(path.components@) is Some,
        name matches Some(bytes) ==> bytes@ == last_name(path.components@)->0,
{
    let count: usize = path.components.len();
    if count == 0 {
        return None;
    }
    match &path.components[count - 1] {
        PathComponent::Normal(name) => Some(name),
        _ => None,
    }
}

/// A file name without its extension.
fn file_stem(name: &Vec<u8>) -> (bytes: &[u8])
    ensures
        bytes@ == stem(name@),
{
    let mut i: usize = name.len();
    assert(name@.take(i as int) == name@);
    while i > 0
        invariant
            0 <= i <= name@.len(),
            last_dot(name@.take(i as int)) == last_dot(name@),
        decreases i,
    {
        assert(name@.take(i as int).drop_last() == name@.take(i - 1));
        if name[i - 1] == DOT {
            if i == 1 {
                return name.as_slice();
            }
            return vstd::slice::slice_subrange(name.as_slice(), 0, i - 1);
        }
        i -= 1;
    }
    name.as_slice()
}

/// Returns `true` if `path` is an Odoo module manifest file (`__manifest__.py`, or the legacy
/// `__openerp__.py` name).
pub fn is_manifest_file(path: &SourcePath) -> (yes: bool)
    ensures
        yes == is_manifest(*path),
{
    match file_name(path) {
        Some(name) => match from_utf8(name.as_slice()) {
            Some(text) => is_listed(MANIFEST_FILES.as_slice(), text),
            None => false,
        },
        None => false,
    }
}

/// The directory holding the `__manifest__.py` (or legacy `__openerp__.py`) that `path` belongs
/// to, walking up from the file, where `probes[i]` tells of the manifests in the `i`-th directory
/// up, the one that holds the file first. A directory that no probe tells of holds no manifest.
///
/// Every directory question here is asked inside an addon and never above it. A checkout living
/// under a path that happens to contain a directory called `tests` would otherwise silence the
/// rules for the whole project, and a repository called `controllers` would turn every file in it
/// into a controller.
pub fn odoo_addon_root<'a>(path: &'a SourcePath, probes: &[ManifestProbe]) -> (root: Option<
    &'a [PathComponent],
>)
    ensures
        root is Some <==> addon_depth(path.components@, probes@, 0) is Some,
        root matches Some(directory) ==> directory@ == path.components@.take(
            addon_depth(path.components@, probes@, 0)->0,
        ),
{
    let count: usize = path.components.len();
    let mut depth: usize = count;
    let mut i: usize = 0;
    assert(path.components@.take(depth as int) == path.components@);
    while depth > 0
        invariant
            0 <= depth <= count,
            count == path.components@.len(),
            i == count - depth,
            addon_depth(path.components@, probes@, 0) == addon_depth(
                path.components@.take(depth as int),
                probes@,
                i as int,
            ),
        decreases depth,
    {
        let ghost here = path.components@.take(depth as int);
        assert(here.last() == path.components@[depth - 1]);
        match &path.components[depth - 1] {
            PathComponent::Prefix => {
                return None;
            },
            PathComponent::RootDir => {
                return None;
            },
            _ => {},
        }
        assert(has_parent(here));
        depth -= 1;
        if i < probes.len() && (probes[i].manifest || probes[i].openerp) {
            return Some(vstd::slice::slice_subrange(path.components.as_slice(), 0, depth));
        }
        assert(here.drop_last() == path.components@.take(depth as int));
        i += 1;
    }
    None
}

/// The directory names between the addon root and `path`, or `None` when `path` is not in an
/// addon at all.
pub fn addon_relative_dirs<'a>(path: &'a SourcePath, probes: &[ManifestProbe]) -> (dirs: Option<
    Vec<&'a str>,
>)
    ensures
        dirs is Some <==> relative_dirs(*path, probes@) is Some,
        dirs matches Some(names) ==> texts(names@) == relative_dirs(*path, probes@)->0,
{
    proof {
        lemma_addon_depth(path.components@, probes@, 0);
    }
    let depth: usize = match odoo_addon_root(path, probes) {
        Some(root) => root.len(),
        None => {
            return None;
        },
    };
    let count: usize = path.components.len();
    let ghost between = path.components@.subrange(depth as int, count - 1);
    let mut names: Vec<&'a str> = Vec::new();
    let mut k: usize = depth;
    assert(between.take(0) == Seq::<PathComponent>::empty());
    assert(texts(names@) == Seq::<Seq<char>>::empty());
    while k < count - 1
        invariant
            depth <= k <= count - 1,
            count == path.components@.len(),
            between == path.components@.subrange(depth as int, count - 1),
            texts(names@) == component_texts(between.take(k - depth)),
        decreases count - k,
    {
        let ghost before = names@;
        let component = &path.components[k];
        assert(between.take(k - depth + 1).drop_last() == between.take(k - depth));
        assert(between.take(k - depth + 1).last() == *component);
        let text: Option<&'a str> = match component {
            PathComponent::CurDir => Some("."),
            PathComponent::ParentDir => Some(".."),
            PathComponent::Normal(name) => from_utf8(name.as_slice()),
            PathComponent::Prefix => None,
            PathComponent::RootDir => None,
        };
        if let Some(name) = text {
            names.push(name);
            assert(texts(names@) == texts(before).push(name@));
        }
        k += 1;
    }
    assert(between.take(k - depth) == between);
    Some(names)
}

/// The addon is a directory above the file.
proof fn lemma_addon_depth(components: Seq<PathComponent>, probes: Seq<ManifestProbe>, i: int)
    ensures
        addon_depth(components, probes, i) matches Some(depth) ==> 0 <= depth < components.len(),
    decreases components.len(),
{
    if has_parent(components) && !has_manifest(probes, i) {
        lemma_addon_depth(components.drop_last(), probes, i + 1);
    }
}

/// Whether some name of `dirs` is one of `names`.
fn is_any_listed(names: &[&str], dirs: &[&str]) -> (yes: bool)
    ensures
        yes == any_listed(names@, texts(dirs@)),
{
    let mut i: usize = 0;
    while i < dirs.len()
        invariant
            0 <= i <= dirs@.len(),
            forall|j: int| 0 <= j < i ==> !lists(names@, #[trigger] texts(dirs@)[j]),
        decreases dirs@.len() - i,
    {
        assert(texts(dirs@)[i as int] == dirs@[i as int]@);
        if is_listed(names, dirs[i]) {
            return true;
        }
        i += 1;
    }
    false
}

/// Returns `true` if a file with these directories between its addon and itself sits under the
/// addon's `tests/`, `migrations/` or `upgrades/`.
pub fn in_structural_non_code_dir(dirs: &[&str]) -> (yes: bool)
    ensures
        yes == any_listed(ODOO_STRUCTURAL_NON_CODE_DIRS@, texts(dirs@)),
{
    is_any_listed(ODOO_STRUCTURAL_NON_CODE_DIRS.as_slice(), dirs)
}

/// Returns `true` if `path` is a file Odoo runs outside the normal request cycle: a test, or a
/// migration or upgrade script. Code there does deliberately what a rule would flag elsewhere.
///
/// A file outside any addon answers `false`: it is not Odoo's to run either way, and the caller
/// decides what that means.
pub fn is_structural_non_code_file(path: &SourcePath, probes: &[ManifestProbe]) -> (yes: bool)
    ensures
        yes == is_structural(*path, probes@),
        relative_dirs(*path, probes@) is None ==> !yes,
{
    match addon_relative_dirs(path, probes) {
        Some(dirs) => in_structural_non_code_dir(dirs.as_slice()),
        None => false,
    }
}

/// Returns `true` if `path` is where an addon keeps its controllers: under a `controller[s]/`
/// directory at any depth inside the addon, so a nested layout such as `controllers/cors/main.py`
/// counts, or in a file whose name starts with `controller`, which is how an addon small enough
/// to skip the directory writes one. The extension never enters into it.
pub fn in_controller_location(path: &SourcePath, dirs: &[&str]) -> (yes: bool)
    ensures
        yes == is_controller_location(*path, texts(dirs@)),
{
    if is_any_listed(ODOO_CONTROLLER_DIRS.as_slice(), dirs) {
        return true;
    }
    match file_name(path) {
        Some(name) => match from_utf8(file_stem(name)) {
            Some(text) => text_starts_with(text, "controller"),
            None => false,
        },
        None => false,
    }
}

/// Where no probe finds a manifest there is no addon.
proof fn lemma_no_addon(components: Seq<PathComponent>, i: int)
    ensures
        addon_depth(components, Seq::empty(), i) is None,
    decreases components.len(),
{
    if has_parent(components) {
        lemma_no_addon(components.drop_last(), i + 1);
    }
}

/// A file in no addon is no test, migration or upgrade script, wherever it lies.
pub proof fn law_without_manifests_nothing_is_structural(path: SourcePath)
    ensures
        relative_dirs(path, Seq::empty()) is None,
        !is_structural(path, Seq::empty()),
{
    lemma_no_addon(path.components@, 0);
}

/// The addon root is found at the same place below any two directories.
proof fn lemma_addon_depth_below(
    above: Seq<PathComponent>,
    elsewhere: Seq<PathComponent>,
    below: Seq<PathComponent>,
    probes: Seq<ManifestProbe>,
    i: int,
)
    requires
        addon_depth(above + below, probes, i) is Some,
        addon_depth(above + below, probes, i)->0 >= above.len(),
    ensures
        addon_depth(elsewhere + below, probes, i) == Some(
            addon_depth(above + below, probes, i)->0 - above.len() + elsewhere.len(),
        ),
    decreases below.len(),
{
    lemma_addon_depth(above + below, probes, i);
    assert(below.len() > 0);
    assert((above + below).last() == below.last());
    assert((elsewhere + below).last() == below.last());
    if !has_manifest(probes, i) {
        assert((above + below).drop_last() == above + below.drop_last());
        assert((elsewhere + below).drop_last() == elsewhere + below.drop_last());
        lemma_addon_depth_below(above, elsewhere, below.drop_last(), probes, i + 1);
    }
}

/// Directory questions are answered inside the addon and never above it: a file whose addon is at
/// or below a directory gets the same answers wherever that directory lies.
pub proof fn law_answers_come_from_inside_the_addon(
    above: Seq<PathComponent>,
    elsewhere: Seq<PathComponent>,
    below: Seq<PathComponent>,
    path: SourcePath,
    moved: SourcePath,
    probes: Seq<ManifestProbe>,
)
    requires
        path.components@ == above + below,
        moved.components@ == elsewhere + below,
        addon_depth(path.components@, probes, 0) is Some,
        addon_depth(path.components@, probes, 0)->0 >= above.len(),
    ensures
        relative_dirs(moved, probes) == relative_dirs(path, probes),
        is_structural(moved, probes) == is_structural(path, probes),
        forall|dirs: Seq<Seq<char>>| #[trigger]
            is_controller_location(moved, dirs) == is_controller_location(path, dirs),
{
    lemma_addon_depth(path.components@, probes, 0);
    lemma_addon_depth_below(above, elsewhere, below, probes, 0);
    let depth = addon_depth(path.components@, probes, 0)->0;
    let d = depth - above.len();
    assert(path.components@.subrange(depth, path.components@.len() - 1) == below.subrange(
        d,
        below.len() - 1,
    ));
    assert(moved.components@.subrange(d + elsewhere.len(), moved.components@.len() - 1)
        == below.subrange(d, below.len() - 1));
    assert(path.components@.last() == below.last());
    assert(moved.components@.last() == below.last());
}

/// Exactly the paths that end with a name that reads `__manifest__.py` or `__openerp__.py` are those
/// of manifests, wherever they lie.
pub proof fn law_manifests_are_known_by_their_last_name(path: SourcePath)
    ensures
        is_manifest(path) <==> path.components@.len() > 0 && (path.components@.last() matches
            PathComponent::Normal(name) && vstd::utf8::valid_utf8(name@) && (
        vstd::utf8::decode_utf8(name@) == "__manifest__.py"@ || vstd::utf8::decode_utf8(name@)
            == "__openerp__.py"@)),
{
    if path.components@.len() > 0 {
        if let PathComponent::Normal(name) = path.components@.last() {
            let text = vstd::utf8::decode_utf8(name@);
            assert(MANIFEST_FILES@[0]@ == "__manifest__.py"@);
            assert(MANIFEST_FILES@[1]@ == "__openerp__.py"@);
        }
    }
}

/// The first `depth` components are the nearest directory above the path in which a manifest was
/// found: one was found there, none was found between it and the file, and going up to it does not
/// leave a root behind.
pub open spec fn nearest_addon(
    components: Seq<PathComponent>,
    probes: Seq<ManifestProbe>,
    depth: int,
) -> bool {
    let steps = components.len() - 1 - depth;
    &&& 0 <= depth < components.len()
    &&& steps < probes.len()
    &&& probes[steps].manifest || probes[steps].openerp
    &&& forall|i: int|
        0 <= i < steps ==> !(#[trigger] probes[i]).manifest && !probes[i].openerp
    &&& forall|k: int|
        depth <= k < components.len() ==> !((#[trigger] components[k]) is Prefix)
            && !(components[k] is RootDir)
}

/// The addon of a file is the nearest directory above it with a manifest.
pub proof fn law_addons_are_the_nearest_with_a_manifest(
    components: Seq<PathComponent>,
    probes: Seq<ManifestProbe>,
    depth: int,
)
    ensures
        addon_depth(components, probes, 0) == Some(depth) <==> nearest_addon(
            components,
            probes,
            depth,
        ),
{
    assert(components.take(components.len() as int) == components);
    lemma_nearest(components, components, probes, 0, depth);
}

/// What [`addon_depth`] finds going up from some directory above the path.
proof fn lemma_nearest(
    components: Seq<PathComponent>,
    here: Seq<PathComponent>,
    probes: Seq<ManifestProbe>,
    i: int,
    depth: int,
)
    requires
        0 <= i,
        i + here.len() == components.len(),
        here == components.take(here.len() as int),
        forall|j: int| 0 <= j < i && j < probes.len() ==> !(#[trigger] probes[j]).manifest && !probes[j].openerp,
        forall|k: int|
            here.len() <= k < components.len() ==> !((#[trigger] components[k]) is Prefix)
                && !(components[k] is RootDir),
    ensures
        addon_depth(here, probes, i) == Some(depth) <==> nearest_addon(components, probes, depth),
    decreases here.len(),
{
    let n = here.len() as int;
    lemma_addon_depth(here, probes, i);
    if n == 0 {
        if nearest_addon(components, probes, depth) {
            let steps = components.len() - 1 - depth;
            assert(steps < i && steps < probes.len());
            assert(!probes[steps].manifest);
        }
    } else {
        assert(here.last() == components[n - 1]);
        assert(here.drop_last() == components.take(n - 1));
        if nearest_addon(components, probes, depth) {
            let steps = components.len() - 1 - depth;
            if steps < i {
                assert(!probes[steps].manifest);
            }
            assert(depth <= n - 1);
            assert(!(components[n - 1] is Prefix) && !(components[n - 1] is RootDir));
        }
        if has_parent(here) {
            if has_manifest(probes, i) {
                if nearest_addon(components, probes, depth) && depth != n - 1 {
                    assert(!probes[i].manifest && !probes[i].openerp);
                }
            } else {
                lemma_nearest(components, here.drop_last(), probes, i + 1, depth);
            }
        }
    }
}

/// The texts of the components are those of the ones that are text, in their order: one component
/// more adds its text at the end, if it is text.
pub proof fn law_texts_come_one_by_one(components: Seq<PathComponent>, component: PathComponent)
    ensures
        component_texts(Seq::empty()) == Seq::<Seq<char>>::empty(),
        component_texts(components.push(component)) == match component {
            PathComponent::Normal(name) => if vstd::utf8::valid_utf8(name@) {
                component_texts(components).push(vstd::utf8::decode_utf8(name@))
            } else {
                component_texts(components)
            },
            PathComponent::CurDir => component_texts(components).push("."@),
            PathComponent::ParentDir => component_texts(components).push(".."@),
            _ => component_texts(components),
        },
{
    assert(components.push(component).drop_last() == components);
}

/// The directory names of a file in an addon are the texts of what stands between the two.
pub proof fn law_relative_dirs_lie_between_addon_and_file(
    path: SourcePath,
    probes: Seq<ManifestProbe>,
    depth: int,
)
    ensures
        nearest_addon(path.components@, probes, depth) ==> relative_dirs(path, probes) == Some(
            component_texts(path.components@.subrange(depth, path.components@.len() - 1)),
        ),
        relative_dirs(path, probes) is Some ==> exists|found: int|
            nearest_addon(path.components@, probes, found),
{
    law_addons_are_the_nearest_with_a_manifest(path.components@, probes, depth);
    if let Some(found) = addon_depth(path.components@, probes, 0) {
        law_addons_are_the_nearest_with_a_manifest(path.components@, probes, found);
    }
}

/// Every component that is text is among the texts, and every text is that of a component.
proof fn lemma_texts_of(components: Seq<PathComponent>)
    ensures
        forall|k: int|
            0 <= k < components.len() && component_text(#[trigger] components[k]) is Some
                ==> component_texts(components).contains(component_text(components[k])->0),
        forall|i: int|
            0 <= i < component_texts(components).len() ==> exists|k: int|
                0 <= k < components.len() && component_text(#[trigger] components[k]) == Some(
                    #[trigger] component_texts(components)[i],
                ),
    decreases components.len(),
{
    if components.len() > 0 {
        let rest = components.drop_last();
        lemma_texts_of(rest);
        let texts = component_texts(components);
        let before = component_texts(rest);
        assert forall|k: int|
            0 <= k < components.len() && component_text(
                #[trigger] components[k],
            ) is Some implies texts.contains(component_text(components[k])->0) by {
            let text = component_text(components[k])->0;
            if k < rest.len() {
                assert(rest[k] == components[k]);
                let i = choose|i: int| 0 <= i < before.len() && before[i] == text;
                assert(texts[i] == text);
            } else {
                assert(texts[before.len() as int] == text);
            }
        }
        assert forall|i: int| 0 <= i < texts.len() implies exists|k: int|
            0 <= k < components.len() && component_text(#[trigger] components[k]) == Some(
                #[trigger] texts[i],
            ) by {
            if i < before.len() {
                let k = choose|k: int|
                    0 <= k < rest.len() && component_text(#[trigger] rest[k]) == Some(before[i]);
                assert(components[k] == rest[k]);
                assert(texts[i] == before[i]);
            } else {
                assert(component_text(components[components.len() - 1]) == Some(texts[i]));
            }
        }
    }
}

/// Component `k` of the path is a directory that reads `text`.
pub open spec fn directory_reads(path: SourcePath, k: int, text: Seq<char>) -> bool {
    path.components@[k] matches PathComponent::Normal(name) && vstd::utf8::valid_utf8(name@)
        && vstd::utf8::decode_utf8(name@) == text
}

/// A file of an addon is a test, migration or upgrade script exactly where a directory between the
/// addon and the file, at any depth, is called `tests`, `migrations` or `upgrades`.
pub proof fn law_structural_files_lie_below_structural_directories(
    path: SourcePath,
    probes: Seq<ManifestProbe>,
    depth: int,
)
    requires
        nearest_addon(path.components@, probes, depth),
    ensures
        is_structural(path, probes) <==> exists|k: int|
            depth <= k < path.components@.len() - 1 && {
                ||| #[trigger] directory_reads(path, k, "tests"@)
                ||| directory_reads(path, k, "migrations"@)
                ||| directory_reads(path, k, "upgrades"@)
            },
{
    law_relative_dirs_lie_between_addon_and_file(path, probes, depth);
    let between = path.components@.subrange(depth, path.components@.len() - 1);
    let dirs = component_texts(between);
    lemma_texts_of(between);
    let names = ODOO_STRUCTURAL_NON_CODE_DIRS@;
    assert(names[0]@ == "tests"@ && names[1]@ == "migrations"@ && names[2]@ == "upgrades"@);
    assert forall|text: Seq<char>| #[trigger] lists(names, text) <==> text == "tests"@ || text
        == "migrations"@ || text == "upgrades"@ by {
        if lists(names, text) {
            let n = choose|n: int| 0 <= n < names.len() && (#[trigger] names[n])@ == text;
            assert(n == 0 || n == 1 || n == 2);
        }
    }
    if is_structural(path, probes) {
        let i = choose|i: int| 0 <= i < dirs.len() && lists(names, #[trigger] dirs[i]);
        let k = choose|k: int|
            0 <= k < between.len() && component_text(#[trigger] between[k]) == Some(dirs[i]);
        reveal_strlit("tests");
        reveal_strlit("migrations");
        reveal_strlit("upgrades");
        reveal_strlit(".");
        reveal_strlit("..");
        assert(dirs[i].len() > 2);
        assert(path.components@[depth + k] == between[k]);
        assert(directory_reads(path, depth + k, dirs[i]));
        assert(directory_reads(path, depth + k, "tests"@) || directory_reads(
            path,
            depth + k,
            "migrations"@,
        ) || directory_reads(path, depth + k, "upgrades"@));
    }
    if exists|k: int|
        depth <= k < path.components@.len() - 1 && {
            ||| #[trigger] directory_reads(path, k, "tests"@)
            ||| directory_reads(path, k, "migrations"@)
            ||| directory_reads(path, k, "upgrades"@)
        } {
        let k = choose|k: int|
            depth <= k < path.components@.len() - 1 && {
                ||| #[trigger] directory_reads(path, k, "tests"@)
                ||| directory_reads(path, k, "migrations"@)
                ||| directory_reads(path, k, "upgrades"@)
            };
        assert(between[k - depth] == path.components@[k]);
        let text = component_text(between[k - depth])->0;
        assert(lists(names, text));
        let i = choose|i: int| 0 <= i < dirs.len() && dirs[i] == text;
        assert(lists(names, dirs[i]));
    }
}

/// The stem of a name is what stands before its last dot, if anything does; a name without a dot, or
/// with a leading one alone, is its own stem.
pub proof fn law_stems_end_at_the_last_dot(base: Seq<u8>, extension: Seq<u8>)
    requires
        !extension.contains(46u8),
    ensures
        base.len() > 0 ==> stem(base.push(46u8) + extension) == base,
        stem(extension) == extension,
        stem(seq![46u8] + extension) == seq![46u8] + extension,
{
    let dotted = seq![46u8] + extension;
    assert(Seq::<u8>::empty().push(46u8) + extension == dotted);
    lemma_last_dot(base, extension);
    lemma_last_dot(Seq::empty(), extension);
    lemma_no_dot(extension);
    assert((base.push(46u8) + extension).take(base.len() as int) == base);
}

proof fn lemma_no_dot(name: Seq<u8>)
    requires
        !name.contains(46u8),
    ensures
        last_dot(name) == -1,
    decreases name.len(),
{
    if name.len() > 0 {
        assert(name[name.len() - 1] != 46u8);
        assert forall|i: int| 0 <= i < name.drop_last().len() implies name.drop_last()[i]
            != 46u8 by {
            assert(name[i] != 46u8);
        }
        lemma_no_dot(name.drop_last());
    }
}

proof fn lemma_last_dot(base: Seq<u8>, extension: Seq<u8>)
    requires
        !extension.contains(46u8),
    ensures
        last_dot(base.push(46u8) + extension) == base.len(),
    decreases extension.len(),
{
    let name = base.push(46u8) + extension;
    if extension.len() == 0 {
        assert(name == base.push(46u8));
    } else {
        assert(extension[extension.len() - 1] != 46u8);
        assert(name.last() == extension.last());
        assert(name.drop_last() == base.push(46u8) + extension.drop_last());
        assert forall|i: int| 0 <= i < extension.drop_last().len() implies extension.drop_last()[i]
            != 46u8 by {
            assert(extension[i] != 46u8);
        }
        lemma_last_dot(base, extension.drop_last());
    }
}

/// A file is where an addon keeps its controllers exactly if a directory between the two, at any
/// depth, is called `controller` or `controllers`, or if the stem of its own name begins with
/// `controller`.
pub proof fn law_controller_locations(path: SourcePath, dirs: Seq<Seq<char>>)
    ensures
        is_controller_location(path, dirs) <==> {
            ||| exists|i: int|
                0 <= i < dirs.len() && (#[trigger] dirs[i] == "controller"@ || dirs[i]
                    == "controllers"@)
            ||| path.components@.len() > 0 && (path.components@.last() matches
                PathComponent::Normal(name) && vstd::utf8::valid_utf8(stem(name@))
                && "controller"@.is_prefix_of(vstd::utf8::decode_utf8(stem(name@))))
        },
{
    let names = ODOO_CONTROLLER_DIRS@;
    assert(names[0]@ == "controller"@ && names[1]@ == "controllers"@);
    assert forall|text: Seq<char>| #[trigger] lists(names, text) <==> text == "controller"@ || text
        == "controllers"@ by {
        if lists(names, text) {
            let n = choose|n: int| 0 <= n < names.len() && (#[trigger] names[n])@ == text;
            assert(n == 0 || n == 1);
        }
    }
    if any_listed(names, dirs) {
        let i = choose|i: int| 0 <= i < dirs.len() && lists(names, #[trigger] dirs[i]);
        assert(dirs[i] == "controller"@ || dirs[i] == "controllers"@);
    }
    if exists|i: int|
        0 <= i < dirs.len() && (#[trigger] dirs[i] == "controller"@ || dirs[i] == "controllers"@) {
        let i = choose|i: int|
            0 <= i < dirs.len() && (#[trigger] dirs[i] == "controller"@ || dirs[i]
                == "controllers"@);
        assert(lists(names, dirs[i]));
    }
}

/// Directories are structural exactly if one of them, at any depth, is called `tests`, `migrations`
/// or `upgrades`.
pub proof fn law_structural_directories(dirs: Seq<Seq<char>>, dir: Seq<char>)
    ensures
        !any_listed(ODOO_STRUCTURAL_NON_CODE_DIRS@, Seq::empty()),
        any_listed(ODOO_STRUCTURAL_NON_CODE_DIRS@, dirs.push(dir)) <==> any_listed(
            ODOO_STRUCTURAL_NON_CODE_DIRS@,
            dirs,
        ) || dir == "tests"@ || dir == "migrations"@ || dir == "upgrades"@,
{
    let names = ODOO_STRUCTURAL_NON_CODE_DIRS@;
    let longer = dirs.push(dir);
    assert(names[0]@ == "tests"@ && names[1]@ == "migrations"@ && names[2]@ == "upgrades"@);
    assert(longer[dirs.len() as int] == dir);
    if any_listed(names, dirs) {
        let i = choose|i: int| 0 <= i < dirs.len() && lists(names, #[trigger] dirs[i]);
        assert(longer[i] == dirs[i]);
    }
    if dir == "tests"@ || dir == "migrations"@ || dir == "upgrades"@ {
        assert(lists(names, longer[dirs.len() as int]));
    }
    if any_listed(names, longer) {
        let i = choose|i: int| 0 <= i < longer.len() && lists(names, #[trigger] longer[i]);
        if i < dirs.len() {
            assert(lists(names, dirs[i]));
        } else {
            let n = choose|n: int| 0 <= n < names.len() && (#[trigger] names[n])@ == dir;
            assert(n == 0 || n == 1 || n == 2);
        }
    }
}

} // verus!

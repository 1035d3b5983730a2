//! Source paths and addons.

use odoo_lint::path::{
    addon_relative_dirs, in_controller_location, in_structural_non_code_dir, is_manifest_file,
    is_structural_non_code_file, odoo_addon_root, ManifestProbe, PathComponent, SourcePath,
    MANIFEST_FILES,
};

const NONE: ManifestProbe = ManifestProbe { manifest: false, openerp: false };
const CURRENT: ManifestProbe = ManifestProbe { manifest: true, openerp: false };
const LEGACY: ManifestProbe = ManifestProbe { manifest: false, openerp: true };

fn path(text: &str) -> SourcePath {
    let mut components = Vec::new();
    for (i, name) in text.split('/').enumerate() {
        components.push(match name {
            "" if i == 0 => PathComponent::RootDir,
            "." => PathComponent::CurDir,
            ".." => PathComponent::ParentDir,
            _ => PathComponent::Normal(name.as_bytes().to_vec()),
        });
    }
    SourcePath { components }
}

fn named(name: &[u8]) -> SourcePath {
    SourcePath { components: vec![PathComponent::Normal(name.to_vec())] }
}

#[test]
fn manifest_files_by_name() {
    assert!(is_manifest_file(&path("/addons/sale/__manifest__.py")));
    assert!(is_manifest_file(&path("__openerp__.py")));
    assert!(!is_manifest_file(&path("/addons/sale/__init__.py")));
    assert!(!is_manifest_file(&path("/addons/__manifest__.py/models.py")));
    assert!(!is_manifest_file(&path("/addons/sale/..")));
    assert!(!is_manifest_file(&SourcePath { components: vec![] }));
    assert!(!is_manifest_file(&named(b"__manifest__.py\xff")));
    assert_eq!(MANIFEST_FILES, ["__manifest__.py", "__openerp__.py"]);
}

#[test]
fn addon_root_is_the_nearest_directory_with_a_manifest() {
    let file = path("/src/sale/models/order.py");
    let root = |probes: &[ManifestProbe]| odoo_addon_root(&file, probes).map(|root| root.len());
    // `/src/sale/models`, `/src/sale`, `/src`, `/`.
    assert_eq!(root(&[NONE, CURRENT]), Some(3));
    assert_eq!(root(&[NONE, LEGACY, CURRENT]), Some(3));
    assert_eq!(root(&[CURRENT, CURRENT]), Some(4));
    assert_eq!(root(&[NONE, NONE, NONE, CURRENT]), Some(1));
    // The root directory has no parent to look into.
    assert_eq!(root(&[NONE, NONE, NONE, NONE, CURRENT]), None);
    assert_eq!(root(&[]), None);
    assert!(odoo_addon_root(&SourcePath { components: vec![] }, &[CURRENT]).is_none());
    assert!(odoo_addon_root(&path(""), &[CURRENT]).is_none());
    let drive = SourcePath { components: vec![PathComponent::Prefix] };
    assert!(odoo_addon_root(&drive, &[CURRENT]).is_none());
}

#[test]
fn relative_directories_lie_between_addon_and_file() {
    let file = path("/src/sale/controllers/cors/main.py");
    assert_eq!(
        addon_relative_dirs(&file, &[NONE, NONE, CURRENT]),
        Some(vec!["controllers", "cors"])
    );
    assert_eq!(addon_relative_dirs(&file, &[CURRENT]), Some(vec![]));
    assert_eq!(addon_relative_dirs(&file, &[NONE]), None);
    // A relative path, up to the empty one.
    assert_eq!(
        addon_relative_dirs(&path("./../tests/x.py"), &[NONE, NONE, NONE, CURRENT]),
        Some(vec![".", "..", "tests"])
    );
    // A name that is no text drops out.
    let odd = SourcePath {
        components: vec![
            PathComponent::RootDir,
            PathComponent::Normal(b"\xff".to_vec()),
            PathComponent::Normal(b"tests".to_vec()),
            PathComponent::Normal(b"x.py".to_vec()),
        ],
    };
    assert_eq!(addon_relative_dirs(&odd, &[NONE, NONE, CURRENT]), Some(vec!["tests"]));
}

#[test]
fn structural_directories() {
    assert!(in_structural_non_code_dir(&["models", "tests"]));
    assert!(in_structural_non_code_dir(&["migrations", "18.0.1"]));
    assert!(in_structural_non_code_dir(&["upgrades"]));
    assert!(!in_structural_non_code_dir(&["test", "migration", "Tests"]));
    assert!(!in_structural_non_code_dir(&[]));
}

#[test]
fn structural_files_are_asked_for_inside_the_addon() {
    let file = path("/builds/tests/sale/models/order.py");
    assert!(!is_structural_non_code_file(&file, &[NONE, CURRENT]));
    assert!(is_structural_non_code_file(&file, &[NONE, NONE, NONE, CURRENT]));
    assert!(is_structural_non_code_file(&path("/src/sale/tests/test_a.py"), &[NONE, CURRENT]));
    // Outside an addon nothing is structural.
    assert!(!is_structural_non_code_file(&path("/src/tests/test_a.py"), &[NONE, NONE, NONE]));
}

#[test]
fn controller_locations() {
    let at = |text: &str, dirs: &[&str]| in_controller_location(&path(text), dirs);
    assert!(at("/a/controllers/cors/main.py", &["controllers", "cors"]));
    assert!(at("/a/controller/main.py", &["controller"]));
    assert!(at("/a/controllers.py", &[]));
    assert!(at("/a/controller_portal.pyi", &[]));
    assert!(at("/a/controller", &[]));
    assert!(!at("/a/main_controller.py", &["models"]));
    assert!(!at("/a/control.py", &[]));
    // The stem ends at the last dot, and a leading dot starts no extension.
    assert!(at("/a/controller.v2.py", &[]));
    assert!(!at("/a/.controller", &[]));
    assert!(!at("/a/contro.ller.py", &[]));
    assert!(!in_controller_location(&SourcePath { components: vec![] }, &[]));
}

#[test]
fn only_the_stem_has_to_be_text() {
    assert!(in_controller_location(&named(b"controllers.\xff"), &[]));
    assert!(!in_controller_location(&named(b"controllers\xff.py"), &[]));
}

#[test]
fn the_place_of_the_checkout_has_no_part_in_the_answers() {
    let probes = [NONE, CURRENT];
    let here = path("/home/me/sale/controllers/main.py");
    let there = path("/builds/tests/controllers/sale/controllers/main.py");
    let dirs = addon_relative_dirs(&here, &probes).unwrap();
    assert_eq!(Some(dirs.clone()), addon_relative_dirs(&there, &probes));
    assert_eq!(
        is_structural_non_code_file(&here, &probes),
        is_structural_non_code_file(&there, &probes)
    );
    assert_eq!(in_controller_location(&here, &dirs), in_controller_location(&there, &dirs));
}

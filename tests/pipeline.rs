use std::path::Path;

use darwin::ecosystem::{go_project, maven_project, project_type_to_project};
use darwin::normalize::{find_root, project_root_in_zip, NormalizeError, RootError};
use darwin::paths::{find_subarray_index, split_path, subpath_parent, trim_trailing_separators};
use darwin::project::{EntryKind, PathMapping, Project, ProjectError, ProjectType, SkeletonError, Store};
use darwin::results::{create_diff, DiffError};

fn strings(v: &[&str]) -> Vec<String> {
    v.iter().map(|s| s.to_string()).collect()
}

#[test]
fn test_subpath_parent() {
    let path = Path::new("etc").join("home").join("turtle").join("frog");
    let path = path.to_str().unwrap();
    assert_eq!(subpath_parent(path, "etc"), Some(String::from("")));
    assert_eq!(subpath_parent(path, "home"), Some(String::from("etc")));
    assert_eq!(subpath_parent(path, "turtle"), Some(String::from("etc/home")));
    assert_eq!(subpath_parent(path, "frog"), Some(String::from("etc/home/turtle")));
    assert_eq!(subpath_parent(path, "not_exists"), None);
}

#[test]
fn subpath_parent_of_a_multi_component_sub_path() {
    assert_eq!(subpath_parent("etc/conf/hold/home", "conf/hold"), Some(String::from("etc")));
    assert_eq!(subpath_parent("a/b/a/b", "a/b/"), Some(String::from("")));
}

#[test]
fn split_path_drops_empty_components() {
    assert_eq!(split_path("src//main/"), strings(&["src", "main"]));
    assert_eq!(split_path(""), Vec::<String>::new());
    assert_eq!(trim_trailing_separators("src/test//"), "src/test");
}

#[test]
fn find_subarray_index_finds_the_first_occurrence() {
    let h = strings(&["a", "b", "a", "b"]);
    assert_eq!(find_subarray_index(&h, &strings(&["a", "b"])), Some(0));
    assert_eq!(find_subarray_index(&h, &strings(&["b", "a"])), Some(1));
    assert_eq!(find_subarray_index(&h, &strings(&["c"])), None);
    assert_eq!(find_subarray_index(&h, &strings(&["a", "b", "a", "b", "a"])), None);
    assert_eq!(find_subarray_index(&h, &[]), Some(0));
}

#[test]
fn maven_exclusion_set_is_the_test_suite() {
    let p = maven_project().unwrap();
    assert_eq!(p.diff_exclude(), &strings(&["src/test/"]));
    assert_eq!(p.project_type(), ProjectType::MavenSurefire);
    let links = p.exclusion_links();
    assert_eq!(links.len(), 1);
    assert_eq!(links[0].link, "src/test");
    assert_eq!(links[0].target, "src/test/");
}

#[test]
fn project_types_give_their_descriptors() {
    assert!(project_type_to_project(&ProjectType::Unspecified).is_ok());
    assert!(project_type_to_project(&ProjectType::MavenSurefire).is_ok());
    assert!(matches!(project_type_to_project(&ProjectType::Go), Err(ProjectError::Unsupported)));
    assert!(matches!(go_project(), Err(ProjectError::Unsupported)));
}

#[test]
fn two_sources_on_one_destination_are_refused() {
    let mut skel = PathMapping::new();
    skel.insert("a/", "x/");
    skel.insert("b/", "x/");
    let sub = PathMapping::new();
    let r = Project::new(ProjectType::MavenSurefire, skel, sub, Vec::new());
    assert!(matches!(r, Err(ProjectError::DuplicateDestination)));
}

#[test]
fn mapping_insert_replaces_a_destination() {
    let mut m = PathMapping::new();
    m.insert("a", "x");
    m.insert("b", "y");
    m.insert("a", "z");
    assert_eq!(m.len(), 2);
    assert_eq!(m.source(0), "a");
    assert_eq!(m.destination(0), "z");
    assert_eq!(m.destination(1), "y");
}

#[test]
fn exclusion_set_is_skeleton_minus_submission() {
    let mut skel = PathMapping::new();
    skel.insert("a/", "a/");
    skel.insert("b/", "b/");
    skel.insert("c", "c");
    let mut sub = PathMapping::new();
    sub.insert("c", "c");
    let p = Project::new(ProjectType::Unspecified, skel, sub, Vec::new()).unwrap();
    assert_eq!(p.diff_exclude(), &strings(&["a/", "b/"]));
}

#[test]
fn init_skeleton_sends_excluded_paths_to_the_exclusion_store() {
    let p = maven_project().unwrap();
    let steps = p
        .init_skeleton(&[EntryKind::Directory, EntryKind::Directory, EntryKind::File])
        .unwrap();
    assert_eq!(steps.len(), 3);
    assert_eq!(steps[0].from, "src/main/");
    assert_eq!(steps[0].store, Store::Skeleton);
    assert!(steps[0].is_dir);
    assert_eq!(steps[1].to, "src/test/");
    assert_eq!(steps[1].store, Store::Exclusion);
    assert_eq!(steps[2].to, "pom.xml");
    assert_eq!(steps[2].store, Store::Skeleton);
    assert!(!steps[2].is_dir);
}

#[test]
fn init_skeleton_refuses_a_missing_or_mismatched_source() {
    let p = maven_project().unwrap();
    match p.init_skeleton(&[EntryKind::Directory, EntryKind::Missing, EntryKind::File]) {
        Err(SkeletonError::Missing { path }) => assert_eq!(path, "src/test/"),
        other => panic!("unexpected {:?}", other),
    }
    match p.init_skeleton(&[EntryKind::File, EntryKind::Directory, EntryKind::File]) {
        Err(SkeletonError::NotADirectory { path }) => assert_eq!(path, "src/main/"),
        other => panic!("unexpected {:?}", other),
    }
    match p.init_skeleton(&[EntryKind::Directory, EntryKind::Directory, EntryKind::Directory]) {
        Err(SkeletonError::NotAFile { path }) => assert_eq!(path, "pom.xml"),
        other => panic!("unexpected {:?}", other),
    }
}

#[test]
fn the_single_root_is_found() {
    let entries = strings(&[
        "TestPA1/",
        "TestPA1/pom.xml",
        "TestPA1/src/main/java/App.java",
        "__MACOSX/TestPA1/._pom.xml",
    ]);
    let keys = strings(&["pom.xml", "src/main/"]);
    assert_eq!(project_root_in_zip(&entries, &keys), Ok(String::from("TestPA1")));
    assert_eq!(find_root(&entries, &keys), Ok(strings(&["TestPA1"])));
}

#[test]
fn no_root_is_an_error() {
    let entries = strings(&["TestPA1/pom.xml", "Other/src/main/App.java"]);
    let keys = strings(&["pom.xml", "src/main/"]);
    assert_eq!(project_root_in_zip(&entries, &keys), Err(RootError::NotFound));
    assert_eq!(project_root_in_zip(&entries, &[]), Err(RootError::NotFound));
}

#[test]
fn two_roots_are_an_error() {
    let entries = strings(&["A/pom.xml", "A/src/main/x", "B/pom.xml", "B/src/main/y"]);
    let keys = strings(&["pom.xml", "src/main/"]);
    assert_eq!(project_root_in_zip(&entries, &keys), Err(RootError::Ambiguous));
}

#[test]
fn a_submission_is_normalized_under_its_root() {
    let p = maven_project().unwrap();
    let entries = strings(&[
        "Sub/",
        "Sub/pom.xml",
        "Sub/src/main/",
        "Sub/src/main/java/App.java",
        "Sub/src/main/java/.DS_Store",
        "Sub/src/test/java/AppTest.java",
        "Sub/README.md",
    ]);
    let steps = p.zip_submission_to_normalized_form(&entries, &strings(&[".DS_Store"])).unwrap();
    let got: Vec<(usize, String)> = steps.iter().map(|s| (s.index, s.dest.clone())).collect();
    assert_eq!(
        got,
        vec![
            (1, String::from("pom.xml")),
            (2, String::from("src/main")),
            (3, String::from("src/main/java/App.java")),
        ]
    );
}

#[test]
fn a_mapped_prefix_is_replaced() {
    let mut skel = PathMapping::new();
    skel.insert("code/", "src/main/");
    let mut sub = PathMapping::new();
    sub.insert("code/", "src/main/");
    let p = Project::new(ProjectType::Unspecified, skel, sub, Vec::new()).unwrap();
    let entries = strings(&["r/code/A.java", "r/code/b/B.java"]);
    let steps = p.zip_submission_to_normalized_form(&entries, &[]).unwrap();
    assert_eq!(steps[0].dest, "src/main/A.java");
    assert_eq!(steps[1].dest, "src/main/b/B.java");
}

#[test]
fn an_empty_archive_is_refused() {
    let p = maven_project().unwrap();
    assert_eq!(p.zip_submission_to_normalized_form(&[], &[]).unwrap_err(), NormalizeError::EmptyArchive);
    let entries = strings(&["A/pom.xml", "A/src/main/x", "B/pom.xml", "B/src/main/y"]);
    assert_eq!(
        p.zip_submission_to_normalized_form(&entries, &[]).unwrap_err(),
        NormalizeError::Root(RootError::Ambiguous)
    );
}

#[test]
fn a_diff_needs_both_trees() {
    assert_eq!(create_diff(false, true), Err(DiffError::OriginalMissing));
    assert_eq!(create_diff(true, false), Err(DiffError::DeviantMissing));
    assert_eq!(create_diff(true, true), Ok(()));
}

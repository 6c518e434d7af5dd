use tags_roots::artifact::{IndexRequest, Location, MarkerProbe, ProbeOutcome, Tags};
use tags_roots::format::{TagsKind, TagsSpec};
use tags_roots::composition::compose_roots;
use tags_roots::packages::{direct_dependencies, Package};
use tags_roots::roots::{TagsRoot, TagsRoots};
use tags_roots::source::SourceKind;

fn lib(lib_name: &str) -> SourceKind {
    SourceKind::CratesIo { lib_name: lib_name.to_string(), version: "1.0.0".to_string() }
}

fn package(src_kind: SourceKind, dependencies: Vec<SourceKind>) -> Package {
    Package { src_kind, dependencies }
}

fn lib_sources(roots: &TagsRoots) -> Vec<String> {
    let mut names = Vec::new();
    for root in roots {
        if let TagsRoot::Lib { src_kind, .. } = root {
            names.push(src_kind.display());
        }
    }
    names
}

fn count_roots_of(roots: &TagsRoots, source: &SourceKind) -> usize {
    let mut count = 0;
    for root in roots {
        if let TagsRoot::Lib { src_kind, .. } = root {
            if src_kind == source {
                count += 1;
            }
        }
    }
    count
}

fn count_project_roots(roots: &TagsRoots) -> usize {
    let mut count = 0;
    for root in roots {
        if let TagsRoot::Proj { .. } = root {
            count += 1;
        }
    }
    count
}

#[test]
fn diamond_yields_four_roots() {
    let packages = vec![
        package(lib("a"), vec![lib("c")]),
        package(lib("b"), vec![lib("c")]),
        package(lib("c"), vec![]),
    ];
    let roots = compose_roots("/proj".to_string(), vec![lib("a"), lib("b")], &packages);
    assert_eq!(roots.len(), 4);
    assert_eq!(count_project_roots(&roots), 1);
    assert_eq!(count_roots_of(&roots, &lib("a")), 1);
    assert_eq!(count_roots_of(&roots, &lib("b")), 1);
    assert_eq!(count_roots_of(&roots, &lib("c")), 1);
}

#[test]
fn project_root_comes_first_with_its_dependencies_as_given() {
    let packages = vec![package(lib("a"), vec![])];
    let roots = compose_roots("/proj".to_string(), vec![lib("a"), lib("b"), lib("a")], &packages);
    match &roots[0] {
        TagsRoot::Proj { root_dir, dependencies } => {
            assert_eq!(root_dir, "/proj");
            assert_eq!(dependencies.len(), 3);
            assert!(dependencies[0] == lib("a"));
            assert!(dependencies[1] == lib("b"));
            assert!(dependencies[2] == lib("a"));
        }
        TagsRoot::Lib { .. } => panic!("the first root is a library"),
    }
    assert_eq!(roots.len(), 3);
    assert_eq!(count_roots_of(&roots, &lib("a")), 1);
    assert_eq!(count_roots_of(&roots, &lib("b")), 1);
}

#[test]
fn no_dependencies_yield_the_project_root_alone() {
    let roots = compose_roots("/proj".to_string(), vec![], &vec![]);
    assert_eq!(roots.len(), 1);
    assert_eq!(count_project_roots(&roots), 1);
    assert!(roots[0].dependencies().is_empty());
}

#[test]
fn unreached_packages_get_no_root() {
    let packages = vec![package(lib("a"), vec![lib("b")]), package(lib("b"), vec![])];
    let roots = compose_roots("/proj".to_string(), vec![], &packages);
    assert_eq!(roots.len(), 1);
    let roots = compose_roots("/proj".to_string(), vec![lib("b")], &packages);
    assert_eq!(lib_sources(&roots), vec!["b-1.0.0".to_string()]);
}

#[test]
fn top_level_dependency_is_emitted_once() {
    let packages = vec![package(lib("a"), vec![]), package(lib("b"), vec![])];
    let roots = compose_roots("/proj".to_string(), vec![lib("a"), lib("b")], &packages);
    assert_eq!(roots.len(), 3);
    assert_eq!(count_roots_of(&roots, &lib("a")), 1);
    assert_eq!(count_roots_of(&roots, &lib("b")), 1);
}

#[test]
fn library_roots_carry_their_direct_dependencies_only() {
    let packages = vec![
        package(lib("a"), vec![lib("b")]),
        package(lib("b"), vec![lib("c")]),
        package(lib("c"), vec![]),
    ];
    let roots = compose_roots("/proj".to_string(), vec![lib("a")], &packages);
    assert_eq!(roots.len(), 4);
    for root in &roots {
        if let TagsRoot::Lib { src_kind, dependencies } = root {
            if *src_kind == lib("a") {
                assert_eq!(dependencies.len(), 1);
                assert!(dependencies[0] == lib("b"));
            } else if *src_kind == lib("b") {
                assert_eq!(dependencies.len(), 1);
                assert!(dependencies[0] == lib("c"));
            } else {
                assert!(*src_kind == lib("c"));
                assert!(dependencies.is_empty());
            }
        }
    }
}

#[test]
fn libraries_are_found_root_after_root() {
    let packages = vec![
        package(lib("c"), vec![]),
        package(lib("b"), vec![lib("c")]),
        package(lib("a"), vec![lib("c"), lib("d")]),
    ];
    let roots = compose_roots("/proj".to_string(), vec![lib("a"), lib("b")], &packages);
    assert_eq!(
        lib_sources(&roots),
        vec![
            "a-1.0.0".to_string(),
            "b-1.0.0".to_string(),
            "c-1.0.0".to_string(),
            "d-1.0.0".to_string()
        ]
    );
}

#[test]
fn cycle_ends() {
    let packages = vec![
        package(lib("a"), vec![lib("b")]),
        package(lib("b"), vec![lib("a")]),
        package(lib("c"), vec![lib("c")]),
    ];
    let roots = compose_roots("/proj".to_string(), vec![lib("a"), lib("c")], &packages);
    assert_eq!(roots.len(), 4);
    assert_eq!(count_roots_of(&roots, &lib("a")), 1);
    assert_eq!(count_roots_of(&roots, &lib("b")), 1);
    assert_eq!(count_roots_of(&roots, &lib("c")), 1);
}

#[test]
fn library_without_package_has_no_dependencies() {
    let roots = compose_roots("/proj".to_string(), vec![lib("a")], &vec![]);
    assert_eq!(roots.len(), 2);
    match &roots[1] {
        TagsRoot::Lib { src_kind, dependencies } => {
            assert!(*src_kind == lib("a"));
            assert!(dependencies.is_empty());
        }
        TagsRoot::Proj { .. } => panic!("a second project root"),
    }
}

#[test]
fn first_package_of_a_library_counts() {
    let packages = vec![
        package(lib("a"), vec![lib("b")]),
        package(lib("a"), vec![lib("c")]),
    ];
    let roots = compose_roots("/proj".to_string(), vec![lib("a")], &packages);
    assert_eq!(lib_sources(&roots), vec!["a-1.0.0".to_string(), "b-1.0.0".to_string()]);
}

#[test]
fn versions_of_one_library_are_different_roots() {
    let old = SourceKind::CratesIo { lib_name: "a".to_string(), version: "0.9.0".to_string() };
    let git = SourceKind::Git { lib_name: "a".to_string(), commit_hash: "1.0.0".to_string() };
    let roots = compose_roots(
        "/proj".to_string(),
        vec![lib("a"), old.clone(), git.clone(), lib("a")],
        &vec![],
    );
    assert_eq!(roots.len(), 4);
    assert_eq!(count_roots_of(&roots, &lib("a")), 1);
    assert_eq!(count_roots_of(&roots, &old), 1);
    assert_eq!(count_roots_of(&roots, &git), 1);
}

#[test]
fn root_hands_out_its_dependencies() {
    let proj = TagsRoot::Proj { root_dir: "/proj".to_string(), dependencies: vec![lib("a")] };
    assert_eq!(proj.dependencies().len(), 1);
    let library = TagsRoot::Lib { src_kind: lib("a"), dependencies: vec![lib("b"), lib("c")] };
    assert_eq!(library.dependencies().len(), 2);
    assert!(library.dependencies()[1] == lib("c"));
}

fn serde() -> SourceKind {
    SourceKind::CratesIo { lib_name: "serde".to_string(), version: "1.0.0".to_string() }
}

fn serde_project() -> TagsRoots {
    compose_roots("/proj".to_string(), vec![serde()], &vec![package(serde(), vec![])])
}

fn vi() -> TagsSpec {
    TagsSpec::new(TagsKind::Vi, "rusty-tags.vi".to_string(), "rusty-tags.emacs".to_string())
        .unwrap()
}

fn source_dir(root: &TagsRoot) -> String {
    match root {
        TagsRoot::Proj { root_dir, .. } => root_dir.clone(),
        TagsRoot::Lib { src_kind, .. } => format!("/registry/{}", src_kind.display()),
    }
}

fn tags_of(root: &TagsRoot, spec: &TagsSpec, cached: bool) -> Tags {
    let at = root.tags_location(spec, &"/cache".to_string());
    Tags::new(&source_dir(root), &format!("{}/{}", at.dir, at.file_name), cached)
}

fn look(tags: &Tags, spec: &TagsSpec, markers: &[String]) -> MarkerProbe {
    let location = tags.marker(spec);
    let path = format!("{}/{}", location.dir, location.file_name);
    let outcome = if markers.contains(&path) { ProbeOutcome::Found } else { ProbeOutcome::Missing };
    MarkerProbe { location, outcome }
}

fn run(roots: &TagsRoots, spec: &TagsSpec, cached: bool, markers: &[String]) -> Vec<IndexRequest> {
    let mut asked = Vec::new();
    for root in roots {
        let tags = tags_of(root, spec, cached);
        if let Some(request) = tags.index_request(spec, &look(&tags, spec, markers)) {
            asked.push(request);
        }
    }
    asked
}

#[test]
fn first_run_generates_both_roots_and_second_run_none() {
    let roots = serde_project();
    assert_eq!(roots.len(), 2);
    assert_eq!(count_project_roots(&roots), 1);
    assert_eq!(count_roots_of(&roots, &serde()), 1);
    let first = run(&roots, &vi(), false, &[]);
    assert_eq!(first.len(), 2);
    assert_eq!(first[0].src_dir, "/proj");
    assert_eq!(first[0].tags_file, "/proj/rusty-tags.vi");
    assert_eq!(first[0].option, None);
    assert_eq!(first[1].src_dir, "/registry/serde-1.0.0");
    assert_eq!(first[1].tags_file, "/cache/serde-1.0.0.vi");
    assert_eq!(first[1].option, None);
    let markers =
        vec!["/proj/rusty-tags.vi".to_string(), "/registry/serde-1.0.0/rusty-tags.vi".to_string()];
    let second = run(&serde_project(), &vi(), true, &markers);
    assert!(second.is_empty());
}

#[test]
fn deleted_marker_regenerates_only_its_root() {
    let markers = vec!["/proj/rusty-tags.vi".to_string()];
    let second = run(&serde_project(), &vi(), true, &markers);
    assert_eq!(second.len(), 1);
    assert_eq!(second[0].src_dir, "/registry/serde-1.0.0");
    assert_eq!(second[0].tags_file, "/cache/serde-1.0.0.vi");
}

#[test]
fn markers_of_the_other_kind_leave_everything_stale() {
    let markers = vec![
        "/proj/rusty-tags.emacs".to_string(),
        "/registry/serde-1.0.0/rusty-tags.emacs".to_string(),
    ];
    assert_eq!(run(&serde_project(), &vi(), true, &markers).len(), 2);
}

fn location_of(root: &TagsRoot, kind: TagsKind) -> Location {
    let spec =
        TagsSpec::new(kind, "rusty-tags.vi".to_string(), "rusty-tags.emacs".to_string()).unwrap();
    root.tags_location(&spec, &"/cache".to_string())
}

#[test]
fn project_tags_lie_in_the_project() {
    let proj = TagsRoot::Proj { root_dir: "/proj".to_string(), dependencies: vec![lib("a")] };
    let at = location_of(&proj, TagsKind::Vi);
    assert_eq!(at.dir, "/proj");
    assert_eq!(at.file_name, "rusty-tags.vi");
    let at = location_of(&proj, TagsKind::Emacs);
    assert_eq!(at.dir, "/proj");
    assert_eq!(at.file_name, "rusty-tags.emacs");
}

#[test]
fn registry_and_git_tags_lie_in_the_cache() {
    let root = TagsRoot::Lib { src_kind: serde(), dependencies: vec![] };
    let at = location_of(&root, TagsKind::Emacs);
    assert_eq!(at.dir, "/cache");
    assert_eq!(at.file_name, "serde-1.0.0.emacs");
    let git = SourceKind::Git { lib_name: "rand".to_string(), commit_hash: "9f339a1".to_string() };
    let root = TagsRoot::Lib { src_kind: git, dependencies: vec![serde()] };
    let at = location_of(&root, TagsKind::Vi);
    assert_eq!(at.dir, "/cache");
    assert_eq!(at.file_name, "rand-9f339a1.vi");
}

#[test]
fn local_tags_lie_beside_the_source() {
    let local =
        SourceKind::Path { lib_name: "helper".to_string(), path: "/home/me/helper".to_string() };
    let root = TagsRoot::Lib { src_kind: local, dependencies: vec![] };
    let at = location_of(&root, TagsKind::Vi);
    assert_eq!(at.dir, "/home/me/helper");
    assert_eq!(at.file_name, "rusty-tags.vi");
}

#[test]
fn roots_as_text() {
    let proj = TagsRoot::Proj { root_dir: "/proj".to_string(), dependencies: vec![] };
    assert_eq!(proj.describe(), "TagsRoot::Proj ( root_dir: /proj, dependencies: [] )");
    let proj = TagsRoot::Proj { root_dir: "/proj".to_string(), dependencies: vec![serde()] };
    assert_eq!(proj.describe(), "TagsRoot::Proj ( root_dir: /proj, dependencies: [serde-1.0.0] )");
    let local = SourceKind::Path { lib_name: "helper".to_string(), path: "/h".to_string() };
    let git = SourceKind::Git { lib_name: "rand".to_string(), commit_hash: "9f339a1".to_string() };
    let root = TagsRoot::Lib { src_kind: serde(), dependencies: vec![local, git, lib("a")] };
    assert_eq!(
        root.describe(),
        "TagsRoot::Lib ( src_kind: serde-1.0.0, dependencies: [helper: /h, rand-9f339a1, a-1.0.0] )"
    );
}

#[test]
fn direct_dependencies_are_looked_up() {
    let packages = vec![
        package(lib("a"), vec![lib("b"), lib("c")]),
        package(lib("b"), vec![]),
        package(lib("a"), vec![lib("d")]),
    ];
    let found = direct_dependencies(&packages, &lib("a"));
    assert_eq!(found.len(), 2);
    assert!(found[0] == lib("b"));
    assert!(found[1] == lib("c"));
    assert!(direct_dependencies(&packages, &lib("b")).is_empty());
    assert!(direct_dependencies(&packages, &lib("z")).is_empty());
}

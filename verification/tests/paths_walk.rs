use xorstream::paths::FsPath;
use xorstream::paths::PathError;
use xorstream::paths::build_output_path;
use xorstream::paths::filter_entry;
use xorstream::paths::get_relative_path;
use xorstream::paths::normalize_path;
use xorstream::paths::path_eq;
use xorstream::walk::FsNode;
use xorstream::walk::walk_select;

fn path_of(segments: &[&str]) -> FsPath {
    FsPath { segments: segments.iter().map(|s| s.to_string()).collect() }
}

fn segments_of(p: &FsPath) -> Vec<String> {
    p.segments.clone()
}

#[test]
fn output_path_mirrors_the_parent() {
    // A file at D/sub/f.txt is written to D/sub/xor/f.txt.
    let input = path_of(&["D", "sub", "f.txt"]);
    let out = build_output_path(&input).unwrap();
    assert_eq!(segments_of(&out), vec!["D", "sub", "xor", "f.txt"]);
}

#[test]
fn output_path_for_a_root_file() {
    let input = path_of(&["f.txt"]);
    let out = build_output_path(&input).unwrap();
    assert_eq!(segments_of(&out), vec!["xor", "f.txt"]);
}

#[test]
fn a_path_without_a_parent_is_rejected() {
    let input = path_of(&[]);
    assert_eq!(build_output_path(&input).unwrap_err(), PathError::NoParent);
}

#[test]
fn normalize_drops_empty_and_dot_segments() {
    let p = path_of(&["a", ".", "", "b", "."]);
    assert_eq!(segments_of(&normalize_path(&p)), vec!["a", "b"]);
    let q = path_of(&["a", "..", "b"]);
    assert_eq!(segments_of(&normalize_path(&q)), vec!["a", "..", "b"]);
}

#[test]
fn filter_excludes_the_output_subtree() {
    let root = path_of(&["home", "data"]);
    let in_output = path_of(&["home", "data", "xor", "f.txt"]);
    let output_dir = path_of(&["home", "data", "xor"]);
    let plain_file = path_of(&["home", "data", "f.txt"]);
    assert!(!filter_entry(&in_output, false, &root, true));
    assert!(!filter_entry(&output_dir, true, &root, true));
    assert!(filter_entry(&plain_file, false, &root, true));
    // An output directory of a subdirectory is not the root's own.
    let nested_output = path_of(&["home", "data", "sub", "xor"]);
    assert!(filter_entry(&nested_output, true, &root, true));
}

#[test]
fn filter_enters_directories_only_when_recursive() {
    let root = path_of(&["home", "data"]);
    let child_dir = path_of(&["home", "data", "sub"]);
    assert!(filter_entry(&root, true, &root, false));
    assert!(!filter_entry(&child_dir, true, &root, false));
    assert!(filter_entry(&child_dir, true, &root, true));
}

#[test]
fn relative_path_strips_a_leading_base() {
    let base = path_of(&["home", "me"]);
    let inside = path_of(&["home", "me", "notes", "f.txt"]);
    let outside = path_of(&["var", "log", "f.txt"]);
    assert_eq!(segments_of(&get_relative_path(&inside, &base)), vec!["notes", "f.txt"]);
    assert_eq!(segments_of(&get_relative_path(&outside, &base)), vec!["var", "log", "f.txt"]);
}

#[test]
fn path_equality_compares_segments() {
    let a = path_of(&["x", "y"]);
    let b = path_of(&["x", "y"]);
    let c = path_of(&["x", "z"]);
    assert!(path_eq(&a, &b));
    assert!(!path_eq(&a, &c));
}

fn sample_tree() -> FsNode {
    // R holding two direct files, a subdirectory with a file, and a prior
    // run's output directory with a transformed file in it.
    FsNode::Dir {
        path: path_of(&["R"]),
        children: vec![
            FsNode::File { path: path_of(&["R", "a.txt"]) },
            FsNode::Dir {
                path: path_of(&["R", "child"]),
                children: vec![FsNode::File { path: path_of(&["R", "child", "b.txt"]) }],
            },
            FsNode::Dir {
                path: path_of(&["R", "xor"]),
                children: vec![FsNode::File { path: path_of(&["R", "xor", "a.txt"]) }],
            },
            FsNode::File { path: path_of(&["R", "c.txt"]) },
        ],
    }
}

#[test]
fn recursive_walk_never_enters_the_output_directory() {
    let tree = sample_tree();
    let root = path_of(&["R"]);
    let yielded = walk_select(&tree, &root, true);
    let got: Vec<Vec<String>> = yielded.iter().map(segments_of).collect();
    assert_eq!(
        got,
        vec![
            vec!["R".to_string(), "a.txt".to_string()],
            vec!["R".to_string(), "child".to_string(), "b.txt".to_string()],
            vec!["R".to_string(), "c.txt".to_string()],
        ]
    );
    for p in &got {
        assert!(!(p.len() >= 2 && p[0] == "R" && p[1] == "xor"));
    }
}

#[test]
fn non_recursive_walk_yields_only_direct_files() {
    let tree = sample_tree();
    let root = path_of(&["R"]);
    let yielded = walk_select(&tree, &root, false);
    let got: Vec<Vec<String>> = yielded.iter().map(segments_of).collect();
    assert_eq!(
        got,
        vec![
            vec!["R".to_string(), "a.txt".to_string()],
            vec!["R".to_string(), "c.txt".to_string()],
        ]
    );
}

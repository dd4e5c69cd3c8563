use rgrep::walker::collect_files;
use rgrep::walker::is_hidden;
use rgrep::walker::FsTree;

fn file(name: &str) -> FsTree {
    FsTree::File { name: name.to_string() }
}

fn dir(name: &str, children: Vec<FsTree>) -> FsTree {
    FsTree::Dir { name: name.to_string(), children }
}

fn other(name: &str) -> FsTree {
    FsTree::Other { name: name.to_string() }
}

fn path(components: &[&str]) -> Vec<String> {
    components.iter().map(|c| c.to_string()).collect()
}

#[test]
fn is_hidden_dotfile_returns_true() {
    assert!(is_hidden(".a"));
}

#[test]
fn is_hidden_dotgit_returns_true() {
    assert!(is_hidden(".git"));
}

#[test]
fn is_hidden_dotenv_returns_true() {
    assert!(is_hidden(".env"));
}

#[test]
fn is_hidden_single_dot_returns_true() {
    assert!(is_hidden("."));
}

#[test]
fn is_hidden_double_dot_returns_true() {
    assert!(is_hidden(".."));
}

#[test]
fn is_hidden_plain_filename_returns_false() {
    assert!(!is_hidden("git"));
}

#[test]
fn is_hidden_dot_in_middle_returns_false() {
    assert!(!is_hidden("a.env"));
}

#[test]
fn is_hidden_empty_name_returns_false() {
    assert!(!is_hidden(""));
}

#[test]
fn collect_files_skips_hidden_file_in_visible_directory() {
    // root/
    // |- a.txt
    // |- .secret
    let root = dir("root", vec![file("a.txt"), file(".secret")]);

    let collected_paths = collect_files(&root);

    assert_eq!(collected_paths.len(), 1);
    assert_eq!(collected_paths[0], path(&["root", "a.txt"]));
}

#[test]
fn collect_files_skips_hidden_directory() {
    // root/
    // |- .git/
    //  |- config
    // |- b.txt
    let root = dir("root", vec![dir(".git", vec![file("config")]), file("b.txt")]);

    let collected_paths = collect_files(&root);

    assert_eq!(collected_paths.len(), 1);
    assert_eq!(collected_paths[0], path(&["root", "b.txt"]));
}

#[test]
fn collect_files_allows_explicit_hidden_file_root() {
    // The root itself is a hidden-named file: it is still collected.
    let root = file(".env");

    let collected_paths = collect_files(&root);

    assert_eq!(collected_paths.len(), 1);
    assert_eq!(collected_paths[0], path(&[".env"]));
}

#[test]
fn collect_files_allows_explicit_hidden_directory_root() {
    // The root itself is a hidden-named directory: its contents are
    // collected.
    let root = dir(".git", vec![file("config")]);

    let collected_paths = collect_files(&root);

    assert_eq!(collected_paths.len(), 1);
    assert_eq!(collected_paths[0], path(&[".git", "config"]));
}

#[test]
fn collect_files_skips_nested_hidden_directory() {
    // root/
    // |- visible/
    //  |- .hidden/
    //   |- x.txt
    let root = dir("root", vec![dir("visible", vec![dir(".hidden", vec![file("x.txt")])])]);

    let collected_paths = collect_files(&root);

    assert_eq!(collected_paths.len(), 0);
}

#[test]
fn collect_files_finds_all_files_when_nothing_is_hidden() {
    // Five regular files at assorted depths and no hidden entries: exactly
    // those five paths come back.
    let root = dir(
        "root",
        vec![
            file("a.txt"),
            dir("sub", vec![file("b.txt"), dir("deeper", vec![file("c.txt"), file("d.txt")])]),
            file("e.txt"),
        ],
    );

    let collected_paths = collect_files(&root);

    assert_eq!(
        collected_paths,
        vec![
            path(&["root", "a.txt"]),
            path(&["root", "sub", "b.txt"]),
            path(&["root", "sub", "deeper", "c.txt"]),
            path(&["root", "sub", "deeper", "d.txt"]),
            path(&["root", "e.txt"]),
        ]
    );
}

#[test]
fn collect_files_skips_entries_that_are_neither_file_nor_directory() {
    let root = dir("root", vec![other("socket"), file("a.txt")]);

    let collected_paths = collect_files(&root);

    assert_eq!(collected_paths, vec![path(&["root", "a.txt"])]);
}

#[test]
fn collect_files_on_other_root_is_empty() {
    let root = other("device");

    let collected_paths = collect_files(&root);

    assert_eq!(collected_paths.len(), 0);
}

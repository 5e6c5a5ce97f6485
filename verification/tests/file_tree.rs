use ac_compiler::state_machine::file_tree::{is_source_file, Entry, FileTree, Tree};

fn path(parts: &[&str]) -> Vec<String> {
    parts.iter().map(|p| p.to_string()).collect()
}

fn tree_with(paths: &[&[&str]]) -> FileTree {
    let mut tree = FileTree::new("project".to_string());
    for p in paths {
        let components = path(p);
        assert!(tree.can_place(&components));
        tree.insert(&components);
    }
    tree
}

#[test]
fn an_empty_tree_prints_the_empty_main_module() {
    assert_eq!(tree_with(&[]).build_program(), "mod main_module {\n}\n");
}

#[test]
fn a_file_is_put_below_the_directory_with_the_empty_name() {
    assert_eq!(
        tree_with(&[&["main.ac"]]).build_program(),
        "mod main_module {\nmod  {\nmod main_module {\nmod main {\n}\n}\n}\n}\n"
    );
}

#[test]
fn directories_nest_and_keep_the_order_of_insertion() {
    let tree = tree_with(&[&["b", "x.ac"], &["a.ac"], &["b", "c", "y.ac"], &["b", "w.ac"]]);
    let inner = "mod b {\nmod main_module {\nmod x {\n}\nmod c {\nmod main_module {\nmod y {\n}\n}\n}\nmod w {\n}\n}\n}\nmod a {\n}\n";
    assert_eq!(
        tree.build_program(),
        format!("mod main_module {{\nmod  {{\nmod main_module {{\n{}}}\n}}\n}}\n", inner)
    );
}

#[test]
fn inserting_a_file_twice_keeps_one_entry() {
    assert_eq!(
        tree_with(&[&["a.ac"], &["b.ac"], &["a.ac"]]).build_program(),
        tree_with(&[&["a.ac"], &["b.ac"]]).build_program()
    );
}

#[test]
fn a_path_without_components_is_a_file_with_the_empty_name() {
    let mut tree = FileTree::new("project".to_string());
    assert!(tree.can_place(&path(&[])));
    tree.insert(&path(&[]));
    // The empty name now is a file, so nothing can be put below it.
    assert!(!tree.can_place(&path(&["a.ac"])));
    assert!(tree.can_place(&path(&[])));
}

#[test]
fn a_file_cannot_be_walked_as_a_directory() {
    let tree = tree_with(&[&["a.ac"], &["d", "b.ac"]]);
    assert!(!tree.can_place(&path(&["a.ac", "inner.ac"])));
    assert!(!tree.can_place(&path(&["d", "b.ac", "deep", "x.ac"])));
    assert!(tree.can_place(&path(&["d", "c.ac"])));
    assert!(tree.can_place(&path(&["e", "f", "g.ac"])));
    // A directory may be replaced by a file of its name.
    assert!(tree.can_place(&path(&["d"])));
}

#[test]
fn a_tree_prints_its_entries_in_order() {
    let tree = Tree::Directory(vec![
        Entry { name: "one.ac".to_string(), tree: Tree::File },
        Entry { name: "dir".to_string(), tree: Tree::Directory(vec![]) },
        Entry { name: "....ac".to_string(), tree: Tree::File },
    ]);
    assert_eq!(
        tree.build_program(),
        "mod main_module {\nmod one {\n}\nmod dir {\nmod main_module {\n}\n}\nmod ... {\n}\n}\n"
    );
}

#[test]
fn the_entries_of_a_directory_can_be_changed() {
    let mut tree = Tree::Directory(vec![]);
    tree.map_mut().unwrap().push(Entry { name: "a.ac".to_string(), tree: Tree::File });
    assert_eq!(tree.build_program(), "mod main_module {\nmod a {\n}\n}\n");
    assert!(Tree::File.map_mut().is_none());
}

#[test]
fn source_files_end_in_the_extension_behind_a_stem() {
    assert!(is_source_file("a.ac"));
    assert!(is_source_file("long name.ac"));
    assert!(is_source_file("..ac"));
    assert!(is_source_file("é.ac"));
    assert!(!is_source_file(".ac"));
    assert!(!is_source_file("ac"));
    assert!(!is_source_file(""));
    assert!(!is_source_file("a.AC"));
    assert!(!is_source_file("a.ac "));
    assert!(!is_source_file("a.acc"));
    assert!(!is_source_file("a.rs"));
}

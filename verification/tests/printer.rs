use git_rs::builder::{EntryKind, WalkEntry};
use git_rs::object::Object;
use git_rs::perms::Perms;
use git_rs::printer::{join_name, print_name, render_line, Projection, Step, TreeWalk};
use git_rs::tree::{Tree, TreeEntry};
use git_rs::zlib::compress;
use std::collections::BTreeMap;

const EMPTY_BLOB: &str = "e69de29bb2d1d6434b8b29ae775ad8c2e48c5391";
const DIR1: &str = "ad24149d789e59d4b5f9ce41cda90110ca0f98b7";
const DIR2: &str = "fb968ab3ef8fad72cbcd6b4b26ce9af5184b6454";

fn in_walk(parent: &str, name: &str, kind: EntryKind) -> WalkEntry {
    WalkEntry {
        parent: parent.as_bytes().to_vec(),
        name: name.as_bytes().to_vec(),
        kind,
        mode: 0o644,
        content: Vec::new(),
    }
}

/// The objects of a directory that holds `dir1/file1`, `dir2/file2`,
/// `dir2/other_file2` and `file0`, stored by hash, and the root tree.
fn sample_store() -> (Tree, BTreeMap<String, Vec<u8>>) {
    let walk = vec![
        in_walk(".", "dir1", EntryKind::Directory),
        in_walk("./dir1", "file1", EntryKind::File),
        in_walk(".", "dir2", EntryKind::Directory),
        in_walk("./dir2", "file2", EntryKind::File),
        in_walk("./dir2", "other_file2", EntryKind::File),
        in_walk(".", "file0", EntryKind::File),
    ];
    let (_, objects) = Tree::write_tree(&walk);
    let mut store = BTreeMap::new();
    for object in &objects {
        store.insert(object.hash().to_hex(), compress(&object.encode()).unwrap());
    }
    match objects.into_iter().last() {
        Some(Object::Tree(root)) => (root, store),
        _ => panic!("the root tree comes last"),
    }
}

fn text(lines: Vec<Vec<u8>>) -> String {
    let mut out = String::new();
    for line in lines {
        out.push_str(&String::from_utf8(line).unwrap());
        out.push('\n');
    }
    out
}

fn run(mut walk: TreeWalk, store: &BTreeMap<String, Vec<u8>>) -> String {
    let mut lines = Vec::new();
    loop {
        match walk.step() {
            Step::Line(line) => lines.push(line),
            Step::Load(hash) => walk.supply(store.get(&hash.to_hex()).map(|v| &v[..])),
            Step::Done => return text(lines),
        }
    }
}

fn all_fields() -> Projection {
    Projection {
        show_perms: true,
        show_type: true,
        show_object: true,
        show_name: true,
        recurse: false,
    }
}

fn plain_entry(perms: Perms, name: &[u8]) -> TreeEntry {
    let hash = git_rs::hash::Hash::parse(EMPTY_BLOB).unwrap();
    TreeEntry::new(perms, name.to_vec(), hash)
}

#[test]
fn ls_tree() {
    let (root, _) = sample_store();
    let mut printer = root.display();
    printer.no_type();
    printer.no_perms();
    printer.no_object();
    assert_eq!(text(printer.lines()), "dir1\ndir2\nfile0\n");
}

#[test]
fn display_shows_every_field() {
    let (root, _) = sample_store();
    let want = format!(
        "040000 tree {} dir1\n040000 tree {} dir2\n100644 blob {} file0\n",
        DIR1, DIR2, EMPTY_BLOB
    );
    assert_eq!(text(root.display().lines()), want);
}

#[test]
fn object_only() {
    let (root, _) = sample_store();
    let mut printer = root.display();
    printer.no_type().no_perms().no_name();
    assert_eq!(
        text(printer.lines()),
        format!("{}\n{}\n{}\n", DIR1, DIR2, EMPTY_BLOB)
    );
}

#[test]
fn each_switch_takes_one_field_out() {
    let (root, _) = sample_store();
    let mut printer = root.display();
    printer.no_perms();
    assert_eq!(
        text(printer.lines()).lines().next(),
        Some(&format!("tree {} dir1", DIR1)[..])
    );
    let mut printer = root.display();
    printer.no_type();
    assert_eq!(
        text(printer.lines()).lines().next(),
        Some(&format!("040000 {} dir1", DIR1)[..])
    );
    let mut printer = root.display();
    printer.no_object();
    assert_eq!(text(printer.lines()).lines().next(), Some("040000 tree dir1"));
    let mut printer = root.display();
    printer.no_name();
    assert_eq!(
        text(printer.lines()).lines().next(),
        Some(&format!("040000 tree {}", DIR1)[..])
    );
}

#[test]
fn no_field_gives_empty_lines() {
    let (root, _) = sample_store();
    let mut printer = root.display();
    printer.no_perms().no_type().no_object().no_name();
    assert_eq!(text(printer.lines()), "\n\n\n");
}

#[test]
fn render_line_of_each_kind() {
    let o = all_fields();
    assert_eq!(
        render_line(o, b"", &plain_entry(Perms::RegularFile, b"a")),
        format!("100644 blob {} a", EMPTY_BLOB).into_bytes()
    );
    assert_eq!(
        render_line(o, b"", &plain_entry(Perms::ExecutableFile, b"b")),
        format!("100755 blob {} b", EMPTY_BLOB).into_bytes()
    );
    assert_eq!(
        render_line(o, b"", &plain_entry(Perms::SymbolicLink, b"c")),
        format!("120000 blob {} c", EMPTY_BLOB).into_bytes()
    );
    assert_eq!(
        render_line(o, b"", &plain_entry(Perms::Directory, b"d")),
        format!("040000 tree {} d", EMPTY_BLOB).into_bytes()
    );
}

#[test]
fn render_line_puts_the_prefix_before_the_name() {
    let o = Projection {
        show_perms: false,
        show_type: true,
        show_object: false,
        show_name: true,
        recurse: false,
    };
    assert_eq!(
        render_line(o, b"dir1/sub", &plain_entry(Perms::RegularFile, b"f")),
        b"blob dir1/sub/f".to_vec()
    );
}

#[test]
fn render_line_keeps_the_bytes_of_the_name() {
    let o = Projection {
        show_perms: false,
        show_type: false,
        show_object: false,
        show_name: true,
        recurse: false,
    };
    assert_eq!(
        render_line(o, b"", &plain_entry(Perms::RegularFile, &[0xff, b' ', 0x80])),
        vec![0xff, b' ', 0x80]
    );
}

#[test]
fn join_name_joins_with_one_slash() {
    assert_eq!(join_name(b"", b"name"), b"name".to_vec());
    assert_eq!(join_name(b"dir", b"name"), b"dir/name".to_vec());
    assert_eq!(join_name(b"a/b", b"c"), b"a/b/c".to_vec());
}

#[test]
fn print_name_appends_the_name() {
    let mut out = b"> ".to_vec();
    print_name(&mut out, b"dir/file");
    assert_eq!(out, b"> dir/file".to_vec());
}

#[test]
fn walk_without_recursion_is_the_lines() {
    let (root, store) = sample_store();
    let mut printer = root.display();
    printer.no_type().no_perms().no_object();
    assert_eq!(run(printer.walk(), &store), text(printer.lines()));
    assert_eq!(run(printer.walk(), &store), "dir1\ndir2\nfile0\n");
}

#[test]
fn walk_can_be_started_again() {
    let (root, store) = sample_store();
    let printer = root.display();
    let first = run(printer.walk(), &store);
    let second = run(printer.walk(), &store);
    assert_eq!(first, second);
    assert_eq!(first.lines().count(), 3);
}

#[test]
fn recursive_walk_goes_into_directories() {
    let (root, store) = sample_store();
    let mut printer = root.display();
    printer.recusive().no_type().no_perms().no_object();
    assert_eq!(
        run(printer.walk(), &store),
        "dir1\ndir1/file1\ndir2\ndir2/file2\ndir2/other_file2\nfile0\n"
    );
}

#[test]
fn recursive_walk_with_every_field() {
    let (root, store) = sample_store();
    let mut printer = root.display();
    printer.recusive();
    let want = format!(
        "040000 tree {d1} dir1\n100644 blob {e} dir1/file1\n040000 tree {d2} dir2\n\
         100644 blob {e} dir2/file2\n100644 blob {e} dir2/other_file2\n100644 blob {e} file0\n",
        d1 = DIR1,
        d2 = DIR2,
        e = EMPTY_BLOB
    );
    assert_eq!(run(printer.walk(), &store), want);
}

#[test]
fn recursive_walk_passes_over_what_it_cannot_load() {
    let (root, mut store) = sample_store();
    store.remove(DIR1);
    store.insert(DIR2.to_string(), b"this is no stream".to_vec());
    let mut printer = root.display();
    printer.recusive().no_type().no_perms().no_object();
    assert_eq!(run(printer.walk(), &store), "dir1\ndir2\nfile0\n");
}

#[test]
fn recursive_walk_passes_over_what_is_no_tree() {
    let (root, mut store) = sample_store();
    store.insert(DIR1.to_string(), compress(b"blob 2\0hi").unwrap());
    store.insert(DIR2.to_string(), compress(b"tree 1\0x").unwrap());
    let mut printer = root.display();
    printer.recusive().no_type().no_perms().no_object();
    assert_eq!(run(printer.walk(), &store), "dir1\ndir2\nfile0\n");
}

#[test]
fn walk_asks_for_the_directory_it_has_just_listed() {
    let (root, store) = sample_store();
    let mut printer = root.display();
    printer.recusive().no_type().no_perms().no_object();
    let mut walk = printer.walk();
    assert!(matches!(walk.step(), Step::Line(line) if line == b"dir1".to_vec()));
    match walk.step() {
        Step::Load(hash) => assert_eq!(hash.to_hex(), DIR1),
        other => panic!("the walk did {:?}", other),
    }
    // it goes on asking until it is answered
    match walk.step() {
        Step::Load(hash) => assert_eq!(hash.to_hex(), DIR1),
        other => panic!("the walk did {:?}", other),
    }
    walk.supply(store.get(DIR1).map(|v| &v[..]));
    assert!(matches!(walk.step(), Step::Line(line) if line == b"dir1/file1".to_vec()));
    assert!(matches!(walk.step(), Step::Line(line) if line == b"dir2".to_vec()));
    walk.supply_inflated(None);
    assert!(matches!(walk.step(), Step::Line(line) if line == b"file0".to_vec()));
    assert!(matches!(walk.step(), Step::Done));
    assert!(matches!(walk.step(), Step::Done));
}

#[test]
fn supply_without_a_question_changes_nothing() {
    let (root, store) = sample_store();
    let printer = root.display();
    let mut walk = printer.walk();
    walk.supply(store.get(DIR2).map(|v| &v[..]));
    assert_eq!(run(walk, &store), text(printer.lines()));
}

#[test]
fn walk_of_an_empty_tree_is_done_at_once() {
    let tree = Tree::new(Vec::new());
    let mut walk = tree.display().walk();
    assert!(matches!(walk.step(), Step::Done));
    assert_eq!(tree.display().lines().len(), 0);
}

use jrep::paths::{get_notebooks_in_dir, is_notebook_name, FsEntry, FsTree, Walk, WalkEntry, WalkStep};

fn file(path: &str, name: &str) -> FsEntry {
    FsEntry::File { path: path.to_string(), name: name.to_string() }
}

fn dir(id: usize) -> FsEntry {
    FsEntry::Dir { id }
}

#[test]
fn notebook_extension_filter() {
    assert!(is_notebook_name("demo.ipynb"));
    assert!(is_notebook_name("a.b.ipynb"));
    assert!(!is_notebook_name(".ipynb"));
    assert!(!is_notebook_name("demo.txt"));
    assert!(!is_notebook_name("demo.ipynb.bak"));
    assert!(!is_notebook_name(""));
}

#[test]
fn flat_directory_keeps_entry_order() {
    let fs = FsTree {
        dirs: vec![vec![
            file("b.ipynb", "b.ipynb"),
            file("notes.txt", "notes.txt"),
            file("a.ipynb", "a.ipynb"),
        ]],
    };
    let mut files = Vec::new();
    get_notebooks_in_dir(&fs, 0, &mut files, false);
    assert_eq!(files, vec!["b.ipynb".to_string(), "a.ipynb".to_string()]);
}

#[test]
fn without_recursion_subdirectories_are_skipped() {
    let fs = FsTree {
        dirs: vec![
            vec![file("top.ipynb", "top.ipynb"), dir(1)],
            vec![file("sub/inner.ipynb", "inner.ipynb")],
        ],
    };
    let mut files = Vec::new();
    get_notebooks_in_dir(&fs, 0, &mut files, false);
    assert_eq!(files, vec!["top.ipynb".to_string()]);
}

#[test]
fn recursion_is_depth_first_at_the_point_encountered() {
    let fs = FsTree {
        dirs: vec![
            vec![file("a.ipynb", "a.ipynb"), dir(1), file("z.ipynb", "z.ipynb")],
            vec![file("sub/m.ipynb", "m.ipynb")],
        ],
    };
    let mut files = Vec::new();
    get_notebooks_in_dir(&fs, 0, &mut files, true);
    assert_eq!(
        files,
        vec!["a.ipynb".to_string(), "sub/m.ipynb".to_string(), "z.ipynb".to_string()]
    );
}

#[test]
fn cycle_terminates_and_reports_each_file_once() {
    // directory 1 holds a link back to its ancestor, directory 0
    let fs = FsTree {
        dirs: vec![
            vec![file("a.ipynb", "a.ipynb"), dir(1)],
            vec![dir(0), file("sub/b.ipynb", "b.ipynb")],
        ],
    };
    let mut files = Vec::new();
    get_notebooks_in_dir(&fs, 0, &mut files, true);
    assert_eq!(files, vec!["a.ipynb".to_string(), "sub/b.ipynb".to_string()]);
}

#[test]
fn self_link_terminates() {
    let fs = FsTree { dirs: vec![vec![dir(0), file("x.ipynb", "x.ipynb")]] };
    let mut files = Vec::new();
    get_notebooks_in_dir(&fs, 0, &mut files, true);
    assert_eq!(files, vec!["x.ipynb".to_string()]);
}

#[test]
fn resolving_twice_yields_the_same_list() {
    let fs = FsTree {
        dirs: vec![
            vec![dir(1), file("r.ipynb", "r.ipynb"), dir(2)],
            vec![file("one/a.ipynb", "a.ipynb"), dir(2)],
            vec![file("two/b.ipynb", "b.ipynb"), dir(0)],
        ],
    };
    let mut first = Vec::new();
    get_notebooks_in_dir(&fs, 0, &mut first, true);
    let mut second = Vec::new();
    get_notebooks_in_dir(&fs, 0, &mut second, true);
    assert_eq!(first, second);
    assert_eq!(
        first,
        vec!["one/a.ipynb".to_string(), "two/b.ipynb".to_string(), "r.ipynb".to_string()]
    );
}

#[test]
fn appends_after_existing_entries() {
    let fs = FsTree { dirs: vec![vec![file("n.ipynb", "n.ipynb")]] };
    let mut files = vec!["given.ipynb".to_string()];
    get_notebooks_in_dir(&fs, 0, &mut files, false);
    assert_eq!(files, vec!["given.ipynb".to_string(), "n.ipynb".to_string()]);
}

fn wfile(path: &str, name: &str) -> WalkEntry {
    WalkEntry::File { path: path.to_string(), name: name.to_string() }
}

fn wdir(path: &str, canon: &str) -> WalkEntry {
    WalkEntry::Dir { path: path.to_string(), canon: canon.to_string() }
}

/// Drive a walk over scripted listings keyed by real path; returns the
/// collected files and every path the walk asked to descend into.
fn drive(root_canon: &str, root_listing: Vec<WalkEntry>, listings: &[(&str, Vec<WalkEntry>)], recurse: bool) -> (Vec<String>, Vec<String>) {
    let mut walk = Walk::start(root_canon.to_string());
    walk.on_listing(root_listing);
    let mut descended = Vec::new();
    loop {
        match walk.step(recurse) {
            WalkStep::Done => break,
            WalkStep::Continue => {}
            WalkStep::Descend(path) => {
                descended.push(path.clone());
                let listing = listings
                    .iter()
                    .find(|(p, _)| *p == path)
                    .map(|(_, l)| l.clone())
                    .unwrap_or_default();
                walk.on_listing(listing);
            }
        }
    }
    (walk.into_files(), descended)
}

#[test]
fn interactive_walk_cycle_terminates_and_keeps_each_file_once() {
    // the subdirectory links back to the root's canonical identity
    let root_listing = vec![wfile("a.ipynb", "a.ipynb"), wdir("sub", "canon-sub"), wfile("n.txt", "n.txt")];
    let sub_listing = vec![wdir("sub/up", "canon-root"), wfile("sub/b.ipynb", "b.ipynb")];
    let (files, descended) = drive(
        "canon-root",
        root_listing,
        &[("sub", sub_listing)],
        true,
    );
    assert_eq!(files, vec!["a.ipynb".to_string(), "sub/b.ipynb".to_string()]);
    // the cycle edge back to the root was never descended into
    assert_eq!(descended, vec!["sub".to_string()]);
}

#[test]
fn interactive_walk_never_descends_one_identity_twice() {
    // two links lead to the same canonical directory
    let root_listing = vec![wdir("one", "canon-x"), wdir("two", "canon-x")];
    let x_listing = vec![wfile("x/f.ipynb", "f.ipynb")];
    let (files, descended) = drive(
        "canon-root",
        root_listing,
        &[("one", x_listing.clone()), ("two", x_listing)],
        true,
    );
    assert_eq!(files, vec!["x/f.ipynb".to_string()]);
    assert_eq!(descended, vec!["one".to_string()]);
}

#[test]
fn interactive_walk_is_depth_first_in_entry_order() {
    let root_listing = vec![
        wfile("a.ipynb", "a.ipynb"),
        wdir("sub", "canon-sub"),
        wfile("z.ipynb", "z.ipynb"),
    ];
    let sub_listing = vec![wfile("sub/m.ipynb", "m.ipynb")];
    let (files, _) = drive("canon-root", root_listing, &[("sub", sub_listing)], true);
    assert_eq!(
        files,
        vec!["a.ipynb".to_string(), "sub/m.ipynb".to_string(), "z.ipynb".to_string()]
    );
}

#[test]
fn interactive_walk_without_recursion_stays_shallow() {
    let root_listing = vec![wdir("sub", "canon-sub"), wfile("top.ipynb", "top.ipynb")];
    let (files, descended) = drive("canon-root", root_listing, &[], false);
    assert_eq!(files, vec!["top.ipynb".to_string()]);
    assert!(descended.is_empty());
}

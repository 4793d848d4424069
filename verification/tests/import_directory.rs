use diaryx_core::import::directory::{
    collect_contents, deepest_first, dir_index_map, file_name, index_path_for_dir,
    is_index_file_name, parent_rel_path, plan_import, DirScan, FileFacts, ImportStep, StepKind,
};

fn strings(v: &[&str]) -> Vec<String> {
    v.iter().map(|s| s.to_string()).collect()
}

fn facts(readable: bool, part_of: bool, contents: bool) -> FileFacts {
    FileFacts {
        readable,
        parsed: readable,
        has_contents: contents,
        has_part_of: part_of,
        has_attachments: false,
    }
}

fn scan() -> DirScan {
    DirScan {
        md_files: strings(&["notes/a.md", "notes/b.md", "readme.md", "journal/index.md"]),
        md_facts: vec![
            facts(true, false, false),
            facts(true, true, false),
            facts(false, false, false),
            facts(true, false, false),
        ],
        other_files: strings(&["notes/img.png"]),
        dirs: deepest_first(&strings(&["", "notes", "journal", "notes/sub"])),
        root_name: Some("my_vault".to_string()),
    }
}

fn describe(s: &ImportStep) -> String {
    let kind = match s.kind {
        StepKind::Skip => "skip",
        StepKind::LinkToIndex => "link",
        StepKind::CreateIndex => "create",
        StepKind::CompleteIndex => "complete",
    };
    format!(
        "{kind} {} {} title={:?} part_of={:?} contents={:?} attachments={:?}",
        s.path, s.index, s.links.title, s.links.part_of, s.links.contents, s.links.attachments
    )
}

#[test]
fn test_relative_path_helpers() {
    assert_eq!(parent_rel_path("a/b/c.md"), "a/b");
    assert_eq!(parent_rel_path("c.md"), "");
    assert_eq!(file_name("a/b/c.md"), "c.md");
    assert_eq!(file_name("c.md"), "c.md");
    assert!(is_index_file_name("index.md"));
    assert!(is_index_file_name("notes_index.md"));
    assert!(!is_index_file_name("myindex.md"));
    assert_eq!(index_path_for_dir(""), "index.md");
    assert_eq!(index_path_for_dir("a/notes"), "a/notes/notes_index.md");
}

#[test]
fn test_deepest_first_is_stable() {
    let d = deepest_first(&strings(&["", "b", "a/x", "c", "a", "a/x/y", "b/z"]));
    assert_eq!(d, strings(&["a/x/y", "a/x", "b/z", "b", "c", "a", ""]));
}

#[test]
fn test_dir_index_map() {
    let m = dir_index_map(&scan());
    let pairs: Vec<(&str, &str)> = m.iter().map(|(a, b)| (a.as_str(), b.as_str())).collect();
    assert_eq!(
        pairs,
        vec![
            ("journal", "journal/index.md"),
            ("notes/sub", "notes/sub/sub_index.md"),
            ("notes", "notes/notes_index.md"),
            ("", "index.md"),
        ]
    );
}

#[test]
fn test_collect_contents() {
    let s = scan();
    let m = dir_index_map(&s);
    assert_eq!(
        collect_contents("notes", &m, &s.md_files, &s.dirs),
        strings(&["notes/a.md", "notes/b.md", "notes/sub/sub_index.md"])
    );
    assert_eq!(
        collect_contents("", &m, &s.md_files, &s.dirs),
        strings(&["readme.md", "notes/notes_index.md", "journal/index.md"])
    );
}

#[test]
fn test_plan_import() {
    let plan: Vec<String> = plan_import(&scan()).iter().map(describe).collect();
    assert_eq!(
        plan,
        vec![
            "link notes/a.md notes/notes_index.md title=None part_of=None contents=[] attachments=[]",
            "skip notes/b.md  title=None part_of=None contents=[] attachments=[]",
            "link readme.md index.md title=None part_of=None contents=[] attachments=[]",
            "create notes/sub/sub_index.md  title=Some(\"Sub\") part_of=Some(\"notes/notes_index.md\") contents=[] attachments=[]",
            "create notes/notes_index.md  title=Some(\"Notes\") part_of=Some(\"index.md\") contents=[\"notes/a.md\", \"notes/b.md\", \"notes/sub/sub_index.md\"] attachments=[\"notes/img.png\"]",
            "create index.md  title=Some(\"My Vault\") part_of=None contents=[\"readme.md\", \"notes/notes_index.md\", \"journal/index.md\"] attachments=[]",
            "complete journal/index.md  title=None part_of=Some(\"index.md\") contents=[] attachments=[]",
        ]
    );
}

#[test]
fn test_plan_import_empty_tree() {
    let s = DirScan {
        md_files: vec![],
        md_facts: vec![],
        other_files: vec![],
        dirs: strings(&[""]),
        root_name: None,
    };
    assert!(plan_import(&s).is_empty());
}

#[test]
fn second_import_of_an_imported_tree_plans_only_skips() {
    let full = |part_of: bool| FileFacts {
        readable: true,
        parsed: true,
        has_contents: true,
        has_part_of: part_of,
        has_attachments: true,
    };
    let scan = DirScan {
        md_files: strings(&["index.md", "notes/notes_index.md", "notes/a.md"]),
        md_facts: vec![full(false), full(true), facts(true, true, false)],
        other_files: strings(&["notes/img.png"]),
        dirs: deepest_first(&strings(&["", "notes"])),
        root_name: Some("vault".to_string()),
    };
    let plan = plan_import(&scan);
    assert!(!plan.is_empty());
    assert!(plan.iter().all(|s| s.kind == StepKind::Skip));
}

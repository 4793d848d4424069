use diaryx_core::diaryx::{section_entries, section_link};
use diaryx_core::yaml::Value;
use diaryx_core::diaryx::{join_onto, Diaryx};
use diaryx_core::link_parser::LinkFormat;

#[derive(Clone, Debug, PartialEq)]
struct NullFs;

#[test]
fn test_diaryx_defaults_and_settings() {
    let mut d = Diaryx::new(NullFs);
    assert_eq!(d.workspace_root(), None);
    assert_eq!(d.link_format(), LinkFormat::MarkdownRoot);
    assert_eq!(d.fs(), &NullFs);
    d.set_link_format(LinkFormat::PlainRelative);
    assert_eq!(d.link_format(), LinkFormat::PlainRelative);
    d.set_workspace_root("/home/me/journal".to_string());
    assert_eq!(d.workspace_root(), Some("/home/me/journal".to_string()));
}

#[test]
fn test_entry_resolve_path() {
    let mut d = Diaryx::new(NullFs);
    assert_eq!(d.entry().resolve_path("a/b.md"), "a/b.md");
    d.set_workspace_root("/ws".to_string());
    assert_eq!(d.entry().resolve_path("a/b.md"), "/ws/a/b.md");
    assert_eq!(d.entry().resolve_path("/abs.md"), "/abs.md");
    assert!(std::ptr::eq(d.workspace().diaryx, &d));
    assert!(std::ptr::eq(d.search().diaryx, &d));
    assert!(std::ptr::eq(d.export().diaryx, &d));
    assert!(std::ptr::eq(d.validate().diaryx, &d));
}

#[test]
fn test_join_onto() {
    assert_eq!(join_onto("root/", "x.md"), "root/x.md");
    assert_eq!(join_onto("root", "x.md"), "root/x.md");
    assert_eq!(join_onto("", "x.md"), "x.md");
    assert_eq!(join_onto("root", "/x.md"), "/x.md");
}

#[test]
fn moved_section_link_and_entries() {
    assert_eq!(section_link("reading_list", "lists/reading.md"), "[Reading List](lists/reading.md)");
    assert_eq!(section_link("notes", "n.md"), "[Notes](n.md)");
    let map = Value::Mapping(vec![
        ("a".to_string(), Value::Int(1)),
        ("b".to_string(), Value::String("x".to_string())),
    ]);
    let e = section_entries("sec", &map);
    assert_eq!(e.len(), 2);
    assert_eq!(e[0].0, "a");
    assert_eq!(e[1].0, "b");
    let flat = section_entries("sec", &Value::Bool(true));
    assert_eq!(flat.len(), 1);
    assert_eq!(flat[0].0, "sec");
    assert!(matches!(flat[0].1, Value::Bool(true)));
}

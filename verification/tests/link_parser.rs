use diaryx_core::link_parser::{
    compute_relative_path, format_link, format_link_with_format, parse_link, path_to_title,
    to_canonical, LinkFormat, PathType,
};

#[test]
fn test_parse_markdown_link_with_root_path() {
    let link = parse_link("[Utility Index](/Utility/utility_index.md)");
    assert_eq!(link.title, Some("Utility Index".to_string()));
    assert_eq!(link.path, "Utility/utility_index.md");
    assert_eq!(link.path_type, PathType::WorkspaceRoot);
}

#[test]
fn test_parse_markdown_link_with_relative_path() {
    let link = parse_link("[Parent](../index.md)");
    assert_eq!(link.title, Some("Parent".to_string()));
    assert_eq!(link.path, "../index.md");
    assert_eq!(link.path_type, PathType::Relative);
}

#[test]
fn test_parse_markdown_link_with_ambiguous_path() {
    let link = parse_link("[Child](child.md)");
    assert_eq!(link.title, Some("Child".to_string()));
    assert_eq!(link.path, "child.md");
    assert_eq!(link.path_type, PathType::Ambiguous);
}

#[test]
fn test_parse_plain_root_path() {
    let link = parse_link("/Utility/file.md");
    assert_eq!(link.title, None);
    assert_eq!(link.path, "Utility/file.md");
    assert_eq!(link.path_type, PathType::WorkspaceRoot);
}

#[test]
fn test_parse_plain_relative_path() {
    let link = parse_link("../parent.md");
    assert_eq!(link.title, None);
    assert_eq!(link.path, "../parent.md");
    assert_eq!(link.path_type, PathType::Relative);
}

#[test]
fn test_parse_plain_ambiguous_path() {
    let link = parse_link("child.md");
    assert_eq!(link.title, None);
    assert_eq!(link.path, "child.md");
    assert_eq!(link.path_type, PathType::Ambiguous);
}

#[test]
fn test_parse_dotslash_relative() {
    let link = parse_link("./sibling.md");
    assert_eq!(link.path, "./sibling.md");
    assert_eq!(link.path_type, PathType::Relative);
}

#[test]
fn test_to_canonical_workspace_root() {
    let link = parse_link("[Title](/Utility/file.md)");
    let canonical = to_canonical(&link, "Other/entry.md");
    assert_eq!(canonical, "Utility/file.md");
}

#[test]
fn test_to_canonical_relative_parent() {
    let link = parse_link("../index.md");
    let canonical = to_canonical(&link, "Folder/Sub/entry.md");
    assert_eq!(canonical, "Folder/index.md");
}

#[test]
fn test_to_canonical_relative_sibling() {
    let link = parse_link("./sibling.md");
    let canonical = to_canonical(&link, "Folder/entry.md");
    assert_eq!(canonical, "Folder/sibling.md");
}

#[test]
fn test_to_canonical_ambiguous() {
    let link = parse_link("child.md");
    let canonical = to_canonical(&link, "Folder/index.md");
    assert_eq!(canonical, "Folder/child.md");
}

#[test]
fn test_to_canonical_deep_relative() {
    let link = parse_link("../../root.md");
    let canonical = to_canonical(&link, "A/B/C/file.md");
    assert_eq!(canonical, "A/root.md");
}

#[test]
fn test_format_link() {
    let link = format_link("Utility/utility_index.md", "Utility Index");
    assert_eq!(link, "[Utility Index](/Utility/utility_index.md)");
}

#[test]
fn test_format_link_root_file() {
    let link = format_link("README.md", "README");
    assert_eq!(link, "[README](/README.md)");
}

#[test]
fn test_path_to_title_underscore() {
    assert_eq!(path_to_title("utility_index.md"), "Utility Index");
}

#[test]
fn test_path_to_title_hyphen() {
    assert_eq!(path_to_title("my-file.md"), "My File");
}

#[test]
fn test_path_to_title_with_path() {
    assert_eq!(path_to_title("Folder/sub_file.md"), "Sub File");
}

#[test]
fn test_path_to_title_number() {
    assert_eq!(path_to_title("2025.md"), "2025");
}

#[test]
fn test_path_to_title_uppercase() {
    assert_eq!(path_to_title("README.md"), "README");
}

#[test]
fn test_roundtrip_link() {
    // Parse a markdown link, convert to canonical, format back
    let original = "[Daily Index](/Daily/daily_index.md)";
    let parsed = parse_link(original);
    let canonical = to_canonical(&parsed, "Other/file.md");
    let title = parsed.title.unwrap_or_else(|| path_to_title(&canonical));
    let formatted = format_link(&canonical, &title);

    assert_eq!(formatted, "[Daily Index](/Daily/daily_index.md)");
}

#[test]
fn test_roundtrip_relative_to_canonical_to_formatted() {
    // Start with relative path, convert to canonical, format as markdown link
    let relative = "../parent_index.md";
    let parsed = parse_link(relative);
    let canonical = to_canonical(&parsed, "Folder/child.md");
    let title = path_to_title(&canonical);
    let formatted = format_link(&canonical, &title);

    assert_eq!(canonical, "parent_index.md");
    assert_eq!(formatted, "[Parent Index](/parent_index.md)");
}

// =========================================================================
// compute_relative_path tests
// =========================================================================

#[test]
fn test_compute_relative_path_same_directory() {
    assert_eq!(compute_relative_path("Folder/a.md", "Folder/b.md"), "b.md");
}

#[test]
fn test_compute_relative_path_child_directory() {
    assert_eq!(
        compute_relative_path("Folder/index.md", "Folder/Sub/child.md"),
        "Sub/child.md"
    );
}

#[test]
fn test_compute_relative_path_parent_directory() {
    assert_eq!(
        compute_relative_path("Folder/Sub/child.md", "Folder/index.md"),
        "../index.md"
    );
}

#[test]
fn test_compute_relative_path_sibling_directory() {
    assert_eq!(
        compute_relative_path("A/file.md", "B/file.md"),
        "../B/file.md"
    );
}

#[test]
fn test_compute_relative_path_root_from_subdir() {
    assert_eq!(
        compute_relative_path("Folder/file.md", "README.md"),
        "../README.md"
    );
}

#[test]
fn test_compute_relative_path_deep_to_root() {
    assert_eq!(
        compute_relative_path("A/B/C/file.md", "README.md"),
        "../../../README.md"
    );
}

// =========================================================================
// format_link_with_format tests
// =========================================================================

#[test]
fn test_format_link_with_format_markdown_root() {
    let link = format_link_with_format(
        "Folder/target.md",
        "Target",
        LinkFormat::MarkdownRoot,
        "Other/source.md",
    );
    assert_eq!(link, "[Target](/Folder/target.md)");
}

#[test]
fn test_format_link_with_format_markdown_relative_same_dir() {
    let link = format_link_with_format(
        "Folder/target.md",
        "Target",
        LinkFormat::MarkdownRelative,
        "Folder/source.md",
    );
    assert_eq!(link, "[Target](target.md)");
}

#[test]
fn test_format_link_with_format_markdown_relative_parent() {
    let link = format_link_with_format(
        "Folder/target.md",
        "Target",
        LinkFormat::MarkdownRelative,
        "Folder/Sub/source.md",
    );
    assert_eq!(link, "[Target](../target.md)");
}

#[test]
fn test_format_link_with_format_plain_relative() {
    let link = format_link_with_format(
        "Folder/target.md",
        "Target",
        LinkFormat::PlainRelative,
        "Folder/source.md",
    );
    assert_eq!(link, "target.md");
}

#[test]
fn test_format_link_with_format_plain_canonical() {
    let link = format_link_with_format(
        "Folder/target.md",
        "Target",
        LinkFormat::PlainCanonical,
        "Other/source.md",
    );
    assert_eq!(link, "Folder/target.md");
}

// =========================================================================
// LinkFormat tests
// =========================================================================

#[test]
fn test_link_format_default() {
    assert_eq!(LinkFormat::default(), LinkFormat::MarkdownRoot);
}

use diaryx_core::entry::{
    apply_filename_style, has_non_portable_chars, prettify_filename, sanitize_filename,
    slugify, slugify_title, slugify_title_with_style, attachment_dedup_key,
};
use diaryx_core::workspace::FilenameStyle;

#[test]
fn test_prettify_filename() {
    assert_eq!(prettify_filename("my-note"), "My Note");
    assert_eq!(prettify_filename("some_file"), "Some File");
    assert_eq!(prettify_filename("already-cool"), "Already Cool");
}

#[test]
fn test_slugify_title() {
    assert_eq!(slugify_title("My Cool Entry"), "my-cool-entry.md");
    assert_eq!(slugify_title("Hello World!"), "hello-world.md");
    assert_eq!(slugify_title("  spaces  "), "spaces.md");
    assert_eq!(slugify_title(""), "untitled.md");
}

#[test]
fn test_preserve_style() {
    assert_eq!(
        apply_filename_style("My Entry: A Story", &FilenameStyle::Preserve),
        "My Entry A Story"
    );
    assert_eq!(
        apply_filename_style("Hello World!", &FilenameStyle::Preserve),
        "Hello World!"
    );
    assert_eq!(
        apply_filename_style("café notes", &FilenameStyle::Preserve),
        "café notes"
    );
    assert_eq!(
        apply_filename_style("file/with\\bad:chars", &FilenameStyle::Preserve),
        "filewithbadchars"
    );
    assert_eq!(
        apply_filename_style("", &FilenameStyle::Preserve),
        "Untitled"
    );
    assert_eq!(
        apply_filename_style("***", &FilenameStyle::Preserve),
        "Untitled"
    );
}

#[test]
fn test_kebab_case_style() {
    assert_eq!(
        apply_filename_style("My Cool Entry", &FilenameStyle::KebabCase),
        "my-cool-entry"
    );
    assert_eq!(
        apply_filename_style("Hello World!", &FilenameStyle::KebabCase),
        "hello-world"
    );
}

#[test]
fn test_snake_case_style() {
    assert_eq!(
        apply_filename_style("My Cool Entry", &FilenameStyle::SnakeCase),
        "my_cool_entry"
    );
    assert_eq!(
        apply_filename_style("Hello World!", &FilenameStyle::SnakeCase),
        "hello_world"
    );
    assert_eq!(
        apply_filename_style("", &FilenameStyle::SnakeCase),
        "untitled"
    );
}

#[test]
fn test_screaming_snake_case_style() {
    assert_eq!(
        apply_filename_style("My Cool Entry", &FilenameStyle::ScreamingSnakeCase),
        "MY_COOL_ENTRY"
    );
    assert_eq!(
        apply_filename_style("Hello World!", &FilenameStyle::ScreamingSnakeCase),
        "HELLO_WORLD"
    );
    assert_eq!(
        apply_filename_style("", &FilenameStyle::ScreamingSnakeCase),
        "UNTITLED"
    );
}

#[test]
fn test_has_non_portable_chars() {
    // Clean filenames
    assert_eq!(has_non_portable_chars("my-note.md"), None);
    assert_eq!(has_non_portable_chars("Hello World.md"), None);
    assert_eq!(has_non_portable_chars("café notes.md"), None);
    assert_eq!(has_non_portable_chars("README.md"), None);

    // Restricted ASCII symbols
    assert!(has_non_portable_chars("what?.md").is_some());
    assert!(has_non_portable_chars("he said \"hello\".md").is_some());
    assert!(has_non_portable_chars("file:name.md").is_some());
    assert!(has_non_portable_chars("a*b.md").is_some());
    assert!(has_non_portable_chars("a|b.md").is_some());
    assert!(has_non_portable_chars("a<b>.md").is_some());

    // Boundary characters
    assert!(has_non_portable_chars(".hidden.md").is_some());
    assert!(has_non_portable_chars("~temp.md").is_some());
    assert!(has_non_portable_chars(" leading-space.md").is_some());
    assert!(has_non_portable_chars("trailing-space .md").is_some());

    // Control characters
    assert!(has_non_portable_chars("file\x00name.md").is_some());
    assert!(has_non_portable_chars("file\x1Fname.md").is_some());
    assert!(has_non_portable_chars("file\x7Fname.md").is_some());
}

#[test]
fn test_sanitize_filename() {
    // Remove restricted chars
    assert_eq!(sanitize_filename("what?.md"), "what.md");
    assert_eq!(
        sanitize_filename("he said \"hello\".md"),
        "he said hello.md"
    );
    assert_eq!(sanitize_filename("a:b:c.md"), "abc.md");

    // Trim boundary chars
    assert_eq!(sanitize_filename(".hidden.md"), "hidden.md");
    assert_eq!(sanitize_filename("~temp.md"), "temp.md");
    assert_eq!(sanitize_filename(" leading.md"), "leading.md");
    assert_eq!(sanitize_filename("trailing .md"), "trailing.md");
    assert_eq!(sanitize_filename("...dots...md"), "dots.md"); // dots trimmed from stem boundaries

    // Fallback
    assert_eq!(sanitize_filename("???.md"), "Untitled.md");
    assert_eq!(sanitize_filename("*"), "Untitled");

    // Preserve extension
    assert_eq!(sanitize_filename("good-name.md"), "good-name.md");
    assert_eq!(sanitize_filename("no-ext"), "no-ext");
}

#[test]
fn test_slugify_title_with_style() {
    assert_eq!(
        slugify_title_with_style("My Entry", &FilenameStyle::Preserve),
        "My Entry.md"
    );
    assert_eq!(
        slugify_title_with_style("My Entry", &FilenameStyle::KebabCase),
        "my-entry.md"
    );
    assert_eq!(
        slugify_title_with_style("My Entry", &FilenameStyle::SnakeCase),
        "my_entry.md"
    );
    assert_eq!(
        slugify_title_with_style("My Entry", &FilenameStyle::ScreamingSnakeCase),
        "MY_ENTRY.md"
    );
}

#[test]
fn test_slugify_collapses_separators() {
    assert_eq!(slugify("My Cool Entry!"), "my-cool-entry");
    assert_eq!(slugify("--a__b--"), "a-b");
    assert_eq!(slugify("!!!"), "");
}

#[test]
fn test_prettify_filename_collapses_whitespace() {
    assert_eq!(prettify_filename("  a--b  "), "A B");
    assert_eq!(prettify_filename(""), "");
    assert_eq!(prettify_filename("élan vital"), "Élan Vital");
}

#[test]
fn test_has_non_portable_chars_reasons() {
    assert_eq!(has_non_portable_chars("what?.md"), Some("contains '?'".to_string()));
    assert_eq!(
        has_non_portable_chars("file\x1Fname.md"),
        Some("contains control character U+001F".to_string())
    );
    assert_eq!(
        has_non_portable_chars("file\x7Fname.md"),
        Some("contains control character U+007F".to_string())
    );
    assert_eq!(has_non_portable_chars(".hidden.md"), Some("starts with '.'".to_string()));
    assert_eq!(has_non_portable_chars("trailing .md"), Some("ends with ' '".to_string()));
    assert_eq!(has_non_portable_chars("a?b\x00.md"), Some("contains '?'".to_string()));
}

#[test]
fn test_sanitize_filename_result_is_portable() {
    for name in ["what?.md", " .~x~. .md", "a\x01b", "...", "ok.md"] {
        let s = sanitize_filename(name);
        assert_eq!(has_non_portable_chars(&s), None, "{}", s);
    }
}

#[test]
fn test_attachment_dedup_key() {
    assert_eq!(attachment_dedup_key("[f](/_attachments/file.pdf.md)", "a/b.md"), "_attachments/file.pdf");
    assert_eq!(attachment_dedup_key("_attachments/file.pdf", "a/b.md"), "a/_attachments/file.pdf");
    assert_eq!(attachment_dedup_key("../x.md", "a/b.md"), "x");
}

#[test]
fn test_sanitize_counterexample_to_portability() {
    assert_eq!(sanitize_filename("x .md?"), "x .md");
    assert_eq!(has_non_portable_chars("x .md"), Some("ends with ' '".to_string()));
}

#[test]
fn test_slug_shape() {
    for s in ["--Hello,  World!--", "a__b", "ÄÖ ü", "", "x"] {
        let slug = slugify(s);
        assert!(!slug.starts_with('-') && !slug.ends_with('-') && !slug.contains("--"), "{}", slug);
    }
}

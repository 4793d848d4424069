use diaryx_core::import::dayone::{
    extract_title_and_body, fallback_media_filename, file_stem, format_location,
    media_reference_stems, mime_from_extension, normalize_media_key, unescape_dayone_markdown,
    DayOneLocation, DayOneMedia,
};
use diaryx_core::import::email::extract_param;
use diaryx_core::import::{ImportOptions, ImportResult};

#[test]
fn test_unescape_dayone_markdown() {
    assert_eq!(unescape_dayone_markdown(r"Hello\."), "Hello.");
    assert_eq!(unescape_dayone_markdown(r"test\!"), "test!");
    assert_eq!(unescape_dayone_markdown(r"a\-b"), "a-b");
    assert_eq!(unescape_dayone_markdown(r"\(foo\)"), "(foo)");
    assert_eq!(unescape_dayone_markdown(r"1\+2"), "1+2");
    assert_eq!(unescape_dayone_markdown(r"\*bold\*"), "*bold*");
    assert_eq!(unescape_dayone_markdown(r"\[link\]"), "[link]");
    assert_eq!(unescape_dayone_markdown(r"\# heading"), "# heading");
    // Backslash before non-special char is preserved
    assert_eq!(unescape_dayone_markdown(r"path\to"), r"path\to");
    // Trailing backslash is preserved
    assert_eq!(unescape_dayone_markdown("end\\"), "end\\");
    // No escapes
    assert_eq!(unescape_dayone_markdown("plain text"), "plain text");
}

#[test]
fn test_extract_title_and_body() {
    let (title, body) = extract_title_and_body("# My Title\nBody here.");
    assert_eq!(title, Some("My Title".to_string()));
    assert_eq!(body, "Body here.");

    let (title, body) = extract_title_and_body("# Just a title");
    assert_eq!(title, Some("Just a title".to_string()));
    assert_eq!(body, "");

    let (title, body) = extract_title_and_body("No heading here.");
    assert_eq!(title, None);
    assert_eq!(body, "No heading here.");

    let (title, body) = extract_title_and_body("# \nBody after empty heading.");
    assert_eq!(title, None);
    assert_eq!(body, "Body after empty heading.");
}

#[test]
fn test_format_location() {
    let loc = DayOneLocation {
        locality_name: Some("Vidor".to_string()),
        administrative_area: Some("TX".to_string()),
        country: Some("United States".to_string()),
    };
    assert_eq!(
        format_location(&loc),
        Some("Vidor, TX, United States".to_string())
    );

    let partial = DayOneLocation {
        locality_name: Some("Austin".to_string()),
        administrative_area: None,
        country: Some("United States".to_string()),
    };
    assert_eq!(
        format_location(&partial),
        Some("Austin, United States".to_string())
    );

    let empty = DayOneLocation {
        locality_name: None,
        administrative_area: None,
        country: None,
    };
    assert_eq!(format_location(&empty), None);
}

#[test]
fn test_mime_from_extension() {
    assert_eq!(mime_from_extension("jpeg"), "image/jpeg");
    assert_eq!(mime_from_extension("jpg"), "image/jpeg");
    assert_eq!(mime_from_extension("JPG"), "image/jpeg");
    assert_eq!(mime_from_extension("png"), "image/png");
    assert_eq!(mime_from_extension("heic"), "image/heic");
    assert_eq!(mime_from_extension("mov"), "video/quicktime");
    assert_eq!(mime_from_extension("mp4"), "video/mp4");
    assert_eq!(mime_from_extension("m4a"), "audio/mp4");
    assert_eq!(mime_from_extension("pdf"), "application/pdf");
    assert_eq!(mime_from_extension("xyz"), "application/octet-stream");
}


#[test]
fn extract_param_quoted() {
    let val = r#"attachment; filename="report.pdf""#;
    assert_eq!(
        extract_param(val, "filename"),
        Some("report.pdf".to_string())
    );
}

#[test]
fn extract_param_unquoted() {
    let val = "attachment; filename=report.pdf";
    assert_eq!(
        extract_param(val, "filename"),
        Some("report.pdf".to_string())
    );
}

#[test]
fn extract_param_edge_cases() {
    assert_eq!(extract_param("inline; FILENAME=A.txt; size=3", "filename"), Some("A.txt".to_string()));
    assert_eq!(extract_param("attachment; filename=\"open", "filename"), None);
    assert_eq!(extract_param("attachment", "filename"), None);
    assert_eq!(extract_param("a; name=  x y ;z", "name"), Some("x y".to_string()));
}

fn media(identifier: Option<&str>, md5: Option<&str>, filename: Option<&str>) -> DayOneMedia {
    DayOneMedia {
        identifier: identifier.map(String::from),
        md5: md5.map(String::from),
        filename: filename.map(String::from),
        media_type: None,
    }
}

#[test]
fn test_fallback_media_filename() {
    assert_eq!(fallback_media_filename(&media(Some("ID"), None, Some("p.jpg")), "jpeg"), "p.jpg");
    assert_eq!(fallback_media_filename(&media(Some("ID"), Some("m"), Some("")), "jpeg"), "ID.jpeg");
    assert_eq!(fallback_media_filename(&media(Some(""), Some("m5"), None), "png"), "m5.png");
    assert_eq!(fallback_media_filename(&media(None, None, None), "pdf"), "media.pdf");
}

#[test]
fn test_media_reference_stems() {
    let item = media(Some("ABC"), Some("abc"), Some("ABC.jpeg"));
    assert_eq!(media_reference_stems(&item, "abc.jpeg"), vec!["ABC".to_string(), "abc".to_string()]);
    let item = media(None, Some(""), None);
    assert_eq!(media_reference_stems(&item, "photo.v2.png"), vec!["photo.v2".to_string()]);
    assert_eq!(file_stem("archive.tar.gz"), "archive.tar");
    assert_eq!(file_stem("noext"), "noext");
    assert_eq!(file_stem(".hidden"), "");
    assert_eq!(normalize_media_key("  AbC.JPG "), "abc.jpg");
}

#[test]
fn test_import_records() {
    assert_eq!(ImportOptions::default().base_folder, "emails");
    let r = ImportResult { imported: 2, skipped: 1, errors: vec!["bad".to_string()], attachment_count: 0 };
    assert_eq!(r.imported + r.skipped, 3);
}

use std::io::{Cursor, Write};

use diaryx_core::import::dayone::{convert_entry, DayOneEntry, DayOneMedia};
use diaryx_core::import::dayone_zip::{
    looks_like_zip, open_dayone_zip, resolve_entry_media, resolve_media,
};
use diaryx_core::import::ImportedEntry;

fn text(v: &serde_json::Value, k: &str) -> Option<String> {
    v.get(k).and_then(|x| x.as_str()).map(|s| s.to_string())
}

fn media(v: &serde_json::Value, k: &str) -> Option<Vec<DayOneMedia>> {
    v.get(k).and_then(|x| x.as_array()).map(|items| {
        items
            .iter()
            .map(|m| DayOneMedia {
                identifier: text(m, "identifier"),
                md5: text(m, "md5"),
                filename: text(m, "filename"),
                media_type: text(m, "type"),
            })
            .collect()
    })
}

fn entry_from_json(v: &serde_json::Value) -> DayOneEntry {
    DayOneEntry {
        uuid: text(v, "uuid"),
        text: text(v, "text"),
        creation_date: text(v, "creationDate"),
        starred: v.get("starred").and_then(|x| x.as_bool()),
        tags: None,
        location: None,
        weather: None,
        photos: media(v, "photos"),
        videos: media(v, "videos"),
        audios: media(v, "audios"),
        pdf_attachments: media(v, "pdfAttachments"),
    }
}

struct Parsed {
    journal_name: Option<String>,
    entries: Vec<Result<ImportedEntry, String>>,
}

/// Reads an export the way the application does: the archive by the
/// library, the JSON by serde, each entry converted with its media.
fn parse_dayone_auto(bytes: &[u8]) -> Parsed {
    let (journal_name, json, index) = if looks_like_zip(bytes) {
        match open_dayone_zip(bytes) {
            Ok(z) => (z.journal_name, z.journal_json, Some(z.media_index)),
            Err(e) => {
                return Parsed {
                    journal_name: None,
                    entries: vec![Err(e)],
                }
            }
        }
    } else {
        (None, bytes.to_vec(), None)
    };
    let journal: serde_json::Value = serde_json::from_slice(&json).unwrap();
    let entries = journal["entries"]
        .as_array()
        .unwrap()
        .iter()
        .map(|v| {
            let entry = entry_from_json(v);
            let found = match &index {
                Some(ix) => resolve_entry_media(bytes, ix, &entry),
                None => {
                    let n = [&entry.photos, &entry.videos, &entry.audios, &entry.pdf_attachments]
                        .iter()
                        .map(|l| l.as_ref().map(|v| v.len()).unwrap_or(0))
                        .sum();
                    vec![None; n]
                }
            };
            convert_entry(entry, found)
        })
        .collect();
    Parsed {
        journal_name,
        entries,
    }
}

fn zip_of(files: &[(&str, &[u8])]) -> Vec<u8> {
    let mut buf = Vec::new();
    {
        let cursor = Cursor::new(&mut buf);
        let mut zip = zip::ZipWriter::new(cursor);
        let options = zip::write::SimpleFileOptions::default();
        for (name, data) in files {
            zip.start_file(*name, options).unwrap();
            zip.write_all(data).unwrap();
        }
        zip.finish().unwrap();
    }
    buf
}

#[test]
fn test_parse_dayone_auto_json() {
    let json = r##"{
        "metadata": { "version": "1.0" },
        "entries": [{
            "text": "# Auto Test\nPlain JSON.",
            "creationDate": "2020-01-01T00:00:00Z"
        }]
    }"##;

    let result = parse_dayone_auto(json.as_bytes());
    assert!(result.journal_name.is_none());
    assert_eq!(result.entries.len(), 1);
    let entry = result.entries.into_iter().next().unwrap().unwrap();
    assert_eq!(entry.title, "Auto Test");
}

#[test]
fn test_parse_dayone_zip_with_media() {
    let journal_json = r##"{
        "metadata": { "version": "1.0" },
        "entries": [{
            "uuid": "TEST123",
            "text": "# Photo Entry\nA photo.",
            "creationDate": "2020-06-15T12:00:00Z",
            "photos": [{ "identifier": "ABCDEF", "type": "jpeg" }]
        }]
    }"##;
    let buf = zip_of(&[
        ("My Journal.json", journal_json.as_bytes()),
        ("photos/ABCDEF.jpeg", b"fake-jpeg-data"),
    ]);

    let result = parse_dayone_auto(&buf);
    assert_eq!(result.journal_name.as_deref(), Some("My Journal"));
    assert_eq!(result.entries.len(), 1);
    let entry = result.entries.into_iter().next().unwrap().unwrap();
    assert_eq!(entry.title, "Photo Entry");
    assert_eq!(entry.attachments.len(), 1);
    assert_eq!(entry.attachments[0].filename, "ABCDEF.jpeg");
    assert_eq!(entry.attachments[0].content_type, "image/jpeg");
    assert_eq!(entry.attachments[0].data, b"fake-jpeg-data");
}

#[test]
fn test_parse_dayone_zip_resolves_media_by_md5() {
    let journal_json = r##"{
        "metadata": { "version": "1.0" },
        "entries": [{
            "uuid": "TEST123",
            "text": "# Photo Entry\n![](dayone-moment://7FB485B610104E7F9A5B785B170035CF)",
            "creationDate": "2020-06-15T12:00:00Z",
            "photos": [{
                "identifier": "7FB485B610104E7F9A5B785B170035CF",
                "md5": "1e1768e844003e8585e4472a4c109265",
                "filename": "IMG_2860.JPG",
                "type": "jpeg"
            }]
        }]
    }"##;
    let buf = zip_of(&[
        ("Journal.json", journal_json.as_bytes()),
        ("photos/1e1768e844003e8585e4472a4c109265.jpeg", b"fake-md5-jpeg-data"),
    ]);

    let result = parse_dayone_auto(&buf);
    let entry = result.entries.into_iter().next().unwrap().unwrap();
    assert_eq!(entry.attachments.len(), 1);
    assert_eq!(
        entry.attachments[0].filename,
        "1e1768e844003e8585e4472a4c109265.jpeg"
    );
    assert_eq!(entry.attachments[0].data, b"fake-md5-jpeg-data");
    assert!(entry
        .body
        .contains("_attachments/1e1768e844003e8585e4472a4c109265.jpeg"));
}

#[test]
fn test_parse_dayone_zip_missing_media() {
    let journal_json = r##"{
        "metadata": { "version": "1.0" },
        "entries": [{
            "text": "# Missing Photo\nThe photo file is not in the ZIP.",
            "creationDate": "2020-01-01T00:00:00Z",
            "photos": [{ "identifier": "NOTFOUND", "type": "jpeg" }]
        }]
    }"##;
    let buf = zip_of(&[("Journal.json", journal_json.as_bytes())]);

    let result = parse_dayone_auto(&buf);
    assert_eq!(result.journal_name.as_deref(), Some("Journal"));
    assert_eq!(result.entries.len(), 1);
    let entry = result.entries.into_iter().next().unwrap().unwrap();
    assert_eq!(entry.attachments.len(), 1);
    assert_eq!(entry.attachments[0].filename, "NOTFOUND.jpeg");
    assert_eq!(entry.attachments[0].content_type, "image/jpeg");
    assert!(entry.attachments[0].data.is_empty());
}

#[test]
fn test_parse_dayone_zip_no_json() {
    let buf = zip_of(&[("photos/ABC.jpeg", b"data")]);

    let result = parse_dayone_auto(&buf);
    assert!(result.journal_name.is_none());
    assert_eq!(result.entries.len(), 1);
    assert!(result.entries[0].is_err());
    assert!(result.entries[0]
        .as_ref()
        .unwrap_err()
        .contains("does not contain"));
}

#[test]
fn test_dayone_moment_url_replacement() {
    let journal_json = r##"{
        "metadata": { "version": "1.0" },
        "entries": [{
            "text": "# Test\n![](dayone-moment://ABCDEF)\nSome text.\n![](dayone-moment:/GHIJKL)",
            "creationDate": "2020-01-01T00:00:00Z",
            "photos": [
                { "identifier": "ABCDEF", "type": "jpeg" },
                { "identifier": "GHIJKL", "type": "png" }
            ]
        }]
    }"##;
    let buf = zip_of(&[
        ("Test.json", journal_json.as_bytes()),
        ("photos/ABCDEF.jpeg", b"jpeg-data"),
        ("photos/GHIJKL.png", b"png-data"),
    ]);

    let result = parse_dayone_auto(&buf);
    let entry = result.entries.into_iter().next().unwrap().unwrap();
    assert!(
        entry.body.contains("_attachments/ABCDEF.jpeg"),
        "body should contain resolved path: {}",
        entry.body
    );
    assert!(
        entry.body.contains("_attachments/GHIJKL.png"),
        "body should contain resolved path: {}",
        entry.body
    );
    assert!(
        !entry.body.contains("dayone-moment"),
        "body should not contain dayone-moment: {}",
        entry.body
    );
}

#[test]
fn zip_journal_name_strips_every_json_suffix() {
    let buf = zip_of(&[
        ("sub/inner.json", b"{}"),
        ("Trip.json.json", b"{\"entries\": []}"),
    ]);
    let z = open_dayone_zip(&buf).unwrap();
    assert_eq!(z.journal_name.as_deref(), Some("Trip"));
    assert_eq!(z.journal_json, b"{\"entries\": []}".to_vec());
    assert!(z.media_index.is_empty());
}

#[test]
fn zip_media_index_and_lookup_order() {
    let buf = zip_of(&[
        ("J.json", b"{}"),
        ("photos/  ABC.JPEG", b"one"),
        ("videos/clip.mov", b"two"),
        ("notes/ignored.txt", b"x"),
    ]);
    let z = open_dayone_zip(&buf).unwrap();
    let keys: Vec<&str> = z.media_index.iter().map(|(k, _)| k.as_str()).collect();
    assert_eq!(keys, vec!["abc", "clip"]);
    let item = DayOneMedia {
        identifier: Some("missing".to_string()),
        md5: Some("".to_string()),
        filename: Some("Clip.MOV".to_string()),
        media_type: None,
    };
    let found = resolve_media(&buf, &z.media_index, &item).unwrap();
    assert_eq!(found.0, "clip.mov");
    assert_eq!(found.1, b"two".to_vec());
}

#[test]
fn zip_errors() {
    assert!(!looks_like_zip(b"{\"entries\": []}"));
    assert!(looks_like_zip(b"PK\x03\x04"));
    let err = open_dayone_zip(b"PK not really a zip").err().unwrap();
    assert!(err.starts_with("Failed to open ZIP archive: "));
}

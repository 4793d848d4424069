use chrono::TimeZone;
use diaryx_core::import::dayone::{
    convert_entry, derive_title, format_weather, DayOneEntry, DayOneLocation, DayOneMedia,
    DayOneWeather,
};
use diaryx_core::import::ImportedEntry;
use diaryx_core::yaml::Value;

/// The temperature as Day One entries show it: whole degrees without a
/// decimal, else one decimal.
fn temperature_text(t: f64) -> String {
    if t.fract() == 0.0 {
        format!("{:.0}", t)
    } else {
        format!("{:.1}", t)
    }
}

fn weather(cond: Option<&str>, temp: Option<f64>) -> DayOneWeather {
    DayOneWeather {
        conditions_description: cond.map(|c| c.to_string()),
        temperature_text: temp.map(temperature_text),
    }
}

fn text(v: &serde_json::Value, k: &str) -> Option<String> {
    v.get(k).and_then(|x| x.as_str()).map(|s| s.to_string())
}

fn media(v: &serde_json::Value, k: &str) -> Option<Vec<DayOneMedia>> {
    v.get(k).and_then(|x| x.as_array()).map(|items| {
        items
            .iter()
            .map(|m| DayOneMedia {
                identifier: text(m, "identifier"),
                md5: text(m, "md5"),
                filename: text(m, "filename"),
                media_type: text(m, "type"),
            })
            .collect()
    })
}

fn entry_from_json(v: &serde_json::Value) -> DayOneEntry {
    DayOneEntry {
        uuid: text(v, "uuid"),
        text: text(v, "text"),
        creation_date: text(v, "creationDate"),
        starred: v.get("starred").and_then(|x| x.as_bool()),
        tags: v.get("tags").and_then(|x| x.as_array()).map(|a| {
            a.iter().filter_map(|t| t.as_str().map(|s| s.to_string())).collect()
        }),
        location: v.get("location").map(|l| DayOneLocation {
            locality_name: text(l, "localityName"),
            administrative_area: text(l, "administrativeArea"),
            country: text(l, "country"),
        }),
        weather: v.get("weather").map(|w| {
            weather(
                w.get("conditionsDescription").and_then(|x| x.as_str()),
                w.get("temperatureCelsius").and_then(|x| x.as_f64()),
            )
        }),
        photos: media(v, "photos"),
        videos: media(v, "videos"),
        audios: media(v, "audios"),
        pdf_attachments: media(v, "pdfAttachments"),
    }
}

fn parse_first(json: &str) -> ImportedEntry {
    let journal: serde_json::Value = serde_json::from_str(json).unwrap();
    let entry = entry_from_json(&journal["entries"][0]);
    let n = [&entry.photos, &entry.videos, &entry.audios, &entry.pdf_attachments]
        .iter()
        .map(|l| l.as_ref().map(|v| v.len()).unwrap_or(0))
        .sum();
    convert_entry(entry, vec![None; n]).unwrap()
}

fn field<'a>(e: &'a ImportedEntry, k: &str) -> Option<&'a Value> {
    e.metadata.iter().find(|(key, _)| key == k).map(|(_, v)| v)
}

#[test]
fn test_derive_title() {
    let dt = chrono::Utc.with_ymd_and_hms(2020, 1, 15, 0, 0, 0).unwrap();
    let ms = Some(dt.timestamp_millis());
    assert_eq!(
        derive_title(ms, "Went to the store today."),
        "2020-01-15 Went to the store today."
    );
    assert_eq!(derive_title(ms, ""), "2020-01-15");
    assert_eq!(derive_title(None, "Some text"), "Undated Some text");
}

#[test]
fn test_derive_title_shortens_long_lines() {
    let line = "word ".repeat(20);
    let t = derive_title(None, &format!("\n  \n{line}\nmore"));
    assert_eq!(t, format!("Undated {}...", "word ".repeat(12).trim_end()));
    let long = "x".repeat(70);
    assert_eq!(derive_title(None, &long), format!("Undated {}...", "x".repeat(60)));
}

#[test]
fn test_format_weather() {
    let w = weather(Some("Cloudy"), Some(23.0));
    assert_eq!(format_weather(&w), Some("Cloudy, 23°C".to_string()));

    let fractional = weather(Some("Clear"), Some(19.8));
    assert_eq!(format_weather(&fractional), Some("Clear, 19.8°C".to_string()));

    let cond_only = weather(Some("Rainy"), None);
    assert_eq!(format_weather(&cond_only), Some("Rainy".to_string()));

    let temp_only = weather(None, Some(-4.0));
    assert_eq!(format_weather(&temp_only), Some("-4°C".to_string()));

    let empty = weather(None, None);
    assert_eq!(format_weather(&empty), None);
}

#[test]
fn test_parse_minimal_entry() {
    let json = r##"{
        "metadata": { "version": "1.0" },
        "entries": [{
            "uuid": "ABC123",
            "text": "# Hello World\nThis is a test.",
            "creationDate": "2020-09-24T01:36:35Z",
            "starred": false,
            "tags": [],
            "isPinned": false
        }]
    }"##;

    let entry = parse_first(json);
    assert_eq!(entry.title, "Hello World");
    assert_eq!(entry.body, "This is a test.");
    assert!(entry.date.is_some());
    assert!(matches!(field(&entry, "uuid"), Some(Value::String(s)) if s == "ABC123"));
    assert!(field(&entry, "tags").is_none());
    assert!(field(&entry, "starred").is_none());
}

#[test]
fn test_parse_entry_with_metadata() {
    let json = r##"{
        "metadata": { "version": "1.0" },
        "entries": [{
            "uuid": "DEF456",
            "text": "# Tagged Entry\nWith location and weather.",
            "creationDate": "2020-04-27T03:04:51Z",
            "starred": true,
            "tags": ["reflection", "personal"],
            "location": {
                "localityName": "Austin",
                "administrativeArea": "TX",
                "country": "United States"
            },
            "weather": {
                "conditionsDescription": "Sunny",
                "temperatureCelsius": 30
            }
        }]
    }"##;

    let entry = parse_first(json);
    assert_eq!(entry.title, "Tagged Entry");
    assert!(matches!(field(&entry, "starred"), Some(Value::Bool(true))));
    match field(&entry, "tags") {
        Some(Value::Sequence(seq)) => assert_eq!(seq.len(), 2),
        _ => panic!("tags should be a sequence"),
    }
    assert!(
        matches!(field(&entry, "location"), Some(Value::String(s)) if s == "Austin, TX, United States")
    );
    assert!(matches!(field(&entry, "weather"), Some(Value::String(s)) if s == "Sunny, 30°C"));
}

#[test]
fn test_parse_entry_with_escapes() {
    let json = r##"{
        "metadata": { "version": "1.0" },
        "entries": [{
            "text": "# Hello\\.\nBody with escapes\\. And \\!exclamation\\!",
            "creationDate": "2020-01-01T00:00:00Z"
        }]
    }"##;

    let entry = parse_first(json);
    assert_eq!(entry.title, "Hello.");
    assert_eq!(entry.body, "Body with escapes. And !exclamation!");
}

#[test]
fn test_parse_no_heading() {
    let json = r##"{
        "metadata": { "version": "1.0" },
        "entries": [{
            "text": "Just some text without a heading.",
            "creationDate": "2020-01-01T00:00:00Z"
        }]
    }"##;

    let entry = parse_first(json);
    assert_eq!(entry.title, "2020-01-01 Just some text without a heading.");
    assert_eq!(entry.body, "Just some text without a heading.");
}

#[test]
fn test_moment_links_point_at_saved_attachments() {
    let json = r##"{
        "entries": [{
            "text": "# Test\n![](dayone-moment://ABCDEF)\nSome text.\n![](dayone-moment:/GHIJKL)",
            "creationDate": "2020-01-01T00:00:00Z",
            "photos": [
                { "identifier": "ABCDEF", "type": "jpeg" },
                { "identifier": "GHIJKL", "type": "png" }
            ]
        }]
    }"##;
    let journal: serde_json::Value = serde_json::from_str(json).unwrap();
    let entry = entry_from_json(&journal["entries"][0]);
    let found = vec![Some(("ABCDEF.jpeg".to_string(), b"jpeg-data".to_vec())), None];
    let e = convert_entry(entry, found).unwrap();
    assert_eq!(e.body, "![](_attachments/ABCDEF.jpeg)\nSome text.\n![](_attachments/GHIJKL.png)");
    assert_eq!(e.attachments.len(), 2);
    assert_eq!(e.attachments[0].filename, "ABCDEF.jpeg");
    assert_eq!(e.attachments[0].content_type, "image/jpeg");
    assert_eq!(e.attachments[0].data, b"jpeg-data".to_vec());
    assert_eq!(e.attachments[1].filename, "GHIJKL.png");
    assert_eq!(e.attachments[1].content_type, "image/png");
    assert!(e.attachments[1].data.is_empty());
}

use diaryx_core::import::email::{entry_from_message, parse_eml, MailMessage, MailPart};
use diaryx_core::yaml::Value;

fn field<'a>(md: &'a [(String, Value)], key: &str) -> Option<&'a Value> {
    md.iter().find(|(k, _)| k == key).map(|(_, v)| v)
}

#[test]
fn parse_simple_eml() {
    let eml = b"From: alice@example.com\r\n\
                 To: bob@example.com\r\n\
                 Subject: Hello World\r\n\
                 Date: Mon, 15 Jan 2024 10:30:00 +0000\r\n\
                 Content-Type: text/plain\r\n\
                 \r\n\
                 This is the body.\r\n";

    let entry = parse_eml(eml).unwrap();
    assert_eq!(entry.title, "Hello World");
    assert!(matches!(
        field(&entry.metadata, "from").unwrap(),
        Value::String(s) if s == "alice@example.com"
    ));
    assert!(matches!(
        field(&entry.metadata, "to").unwrap(),
        Value::String(s) if s == "bob@example.com"
    ));
    assert!(entry.body.contains("This is the body."));
    assert!(entry.attachments.is_empty());
    assert!(entry.date.is_some());
}

#[test]
fn parse_eml_missing_subject() {
    let eml = b"From: alice@example.com\r\n\
                 Content-Type: text/plain\r\n\
                 \r\n\
                 No subject here.\r\n";

    let entry = parse_eml(eml).unwrap();
    assert_eq!(entry.title, "Untitled Email");
}

#[test]
fn eml_date_in_milliseconds() {
    let eml = b"Subject: When\r\nDate: Mon, 15 Jan 2024 10:30:00 +0000\r\n\r\nx\r\n";
    let entry = parse_eml(eml).unwrap();
    assert_eq!(entry.date, Some(1_705_314_600_000));
    assert_eq!(entry.metadata.len(), 0);
}

#[test]
fn eml_multipart_with_attachment() {
    let eml = b"Subject: Report\r\n\
Content-Type: multipart/mixed; boundary=\"XYZ\"\r\n\
\r\n\
--XYZ\r\n\
Content-Type: text/plain\r\n\
\r\n\
See attached.\r\n\
--XYZ\r\n\
Content-Type: application/pdf; name=\"r.pdf\"\r\n\
Content-Disposition: attachment; filename=\"report.pdf\"\r\n\
\r\n\
PDFDATA\r\n\
--XYZ--\r\n";
    let entry = parse_eml(eml).unwrap();
    assert_eq!(entry.body, "See attached.");
    assert_eq!(entry.attachments.len(), 1);
    assert_eq!(entry.attachments[0].filename, "report.pdf");
    assert_eq!(entry.attachments[0].content_type, "application/pdf");
    assert_eq!(entry.attachments[0].data, b"PDFDATA".to_vec());
}

fn part(mime: &str, text: &str) -> MailPart {
    MailPart {
        mimetype: mime.to_string(),
        disposition: None,
        content_type: None,
        text: Ok(text.to_string()),
        data: Ok(text.as_bytes().to_vec()),
        subparts: Vec::new(),
    }
}

fn message(subject: Option<&str>, root: MailPart) -> MailMessage {
    MailMessage {
        subject: subject.map(|s| s.to_string()),
        from: Some("a@x".to_string()),
        to: None,
        cc: Some("c@x".to_string()),
        date: None,
        root,
    }
}

#[test]
fn message_prefers_plain_text_and_names_attachments() {
    let mut root = part("multipart/mixed", "");
    root.subparts.push(part("text/html", "<p>html</p>"));
    root.subparts.push(part("TEXT/PLAIN", "plain one"));
    root.subparts.push(part("text/plain", "plain two"));
    root.subparts.push(part("image/png", "PNG"));
    root.subparts.push(part("image/gif", ""));
    let mut named = part("application/zip", "ZIP");
    named.content_type = Some("application/zip; name=data.zip".to_string());
    root.subparts.push(named);
    let entry = entry_from_message(message(Some("  "), root)).unwrap();
    assert_eq!(entry.title, "Untitled Email");
    assert_eq!(entry.body, "plain one");
    assert_eq!(entry.date, None);
    let keys: Vec<&str> = entry.metadata.iter().map(|(k, _)| k.as_str()).collect();
    assert_eq!(keys, vec!["from", "cc"]);
    let names: Vec<&str> = entry.attachments.iter().map(|a| a.filename.as_str()).collect();
    assert_eq!(names, vec!["attachment-1", "data.zip"]);
    assert_eq!(entry.attachments[0].content_type, "image/png");
}

#[test]
fn message_html_only_is_converted() {
    let mut root = part("multipart/alternative", "");
    root.subparts.push(part("text/html", "<p>Hello <strong>there</strong></p>"));
    let entry = entry_from_message(message(Some("Hi"), root)).unwrap();
    assert_eq!(entry.title, "Hi");
    assert!(entry.body.contains("Hello"));
    assert!(!entry.body.contains("<p>"));
}

#[test]
fn message_decode_errors() {
    let mut bad = part("image/png", "");
    bad.data = Err("bad base64".to_string());
    let entry = entry_from_message(message(None, bad));
    assert_eq!(entry.err().unwrap(), "Failed to decode attachment: bad base64");
    let mut bad = part("text/plain", "");
    bad.text = Err("bad charset".to_string());
    let entry = entry_from_message(message(None, bad));
    assert_eq!(entry.err().unwrap(), "Failed to decode body: bad charset");
}

#[test]
fn message_without_text_has_empty_body() {
    let entry = entry_from_message(message(None, part("image/jpeg", ""))).unwrap();
    assert_eq!(entry.body, "");
    assert!(entry.attachments.is_empty());
}

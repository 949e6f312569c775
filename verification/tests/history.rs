use mixar_library::history::export::{
    csv_field, export_body, render_csv, render_m3u8, render_txt, HistoryExportFormat,
};
use mixar_library::history::parse::{
    float_text_ok, parse_document, parse_events, XmlEvent, XmlStream, XmlTag,
};
use mixar_library::history::xspf::{
    render_document, session_filename_from_started_at, xml_escape, HistoryDocument, HistoryEntry,
};

fn sample_document() -> HistoryDocument {
    let mut doc = HistoryDocument::new_session("Test Set");
    doc.entries.push(HistoryEntry {
        id: "e1".into(),
        deck: 1,
        track_id: Some("t1".into()),
        location: "file:///music/a.flac".into(),
        title: Some("Rock & Roll".into()),
        artist: Some("Artist <live>".into()),
        album: Some("Album".into()),
        duration_sec: Some(240),
        bpm: Some(128.0f64.to_string()),
        key: Some("Am".into()),
        isrc: Some("USXXX".into()),
        started_at: "2026-08-27T14:31:05Z".into(),
        ended_at: Some("2026-08-27T14:36:12Z".into()),
        played_duration_ms: Some(307_000),
    });
    doc.entries.push(HistoryEntry {
        id: "e2".into(),
        deck: 2,
        track_id: None,
        location: "file:///music/b.mp3".into(),
        title: Some("=HYPERLINK".into()),
        artist: None,
        album: None,
        duration_sec: None,
        bpm: None,
        key: None,
        isrc: None,
        started_at: "2026-08-27T14:40:00Z".into(),
        ended_at: None,
        played_duration_ms: None,
    });
    doc
}

#[test]
fn export_csv_writes_header_and_escaped_rows() {
    let doc = sample_document();
    let body = render_csv(&doc);
    assert!(body.starts_with(
        "position,started_at,ended_at,played_duration_ms,deck,title,artist,album,bpm,key,isrc,file_path,track_id\n"
    ));
    assert!(body.contains("Rock & Roll"));
    assert!(body.contains("Artist <live>"));
    assert!(body.contains("'=HYPERLINK"));
    assert!(body.contains("file:///music/a.flac"));
}

#[test]
fn export_m3u8_lists_tracks_with_extinf() {
    let doc = sample_document();
    let body = render_m3u8(&doc);
    assert!(body.starts_with("#EXTM3U\n"));
    assert!(body.contains("#EXTINF:240,Rock & Roll - Artist <live>\n"));
    assert!(body.contains("file:///music/a.flac\n"));
    assert!(body.contains("#EXTINF:-1,=HYPERLINK\n"));
}

#[test]
fn export_txt_numbered_titles() {
    let doc = sample_document();
    let body = render_txt(&doc);
    assert_eq!(body, "1. Rock & Roll - Artist <live>\n2. =HYPERLINK\n");
}

#[test]
fn roundtrip_document() {
    let mut doc = HistoryDocument::new_session("Test Set");
    doc.entries.push(HistoryEntry {
        id: "e1".into(),
        deck: 1,
        track_id: Some("t1".into()),
        location: "file:///music/a.flac".into(),
        title: Some("Title".into()),
        artist: Some("Artist".into()),
        album: None,
        duration_sec: Some(240),
        bpm: Some(128.0f64.to_string()),
        key: Some("Am".into()),
        isrc: Some("USXXX".into()),
        started_at: "2026-08-27T14:31:05Z".into(),
        ended_at: Some("2026-08-27T14:36:12Z".into()),
        played_duration_ms: Some(307_000),
    });
    let text = render_document(&doc);
    let read = parse_document(text.as_bytes()).unwrap();
    assert_eq!(read.session.title, "Test Set");
    assert_eq!(read.entries.len(), 1);
    assert_eq!(read.entries[0].deck, 1);
    assert_eq!(
        read.entries[0].ended_at.as_deref(),
        Some("2026-08-27T14:36:12Z")
    );
}

#[test]
fn roundtrip_keeps_entry_fields_and_session() {
    let doc = sample_document();
    let read = parse_document(render_document(&doc).as_bytes()).unwrap();
    assert_eq!(read.session.id, doc.session.id);
    assert_eq!(read.session.started_at, doc.session.started_at);
    assert!(!read.session.closed);
    assert_eq!(read.entries.len(), 2);
    assert_eq!(read.entries[0].id, "e1");
    assert_eq!(read.entries[0].track_id.as_deref(), Some("t1"));
    assert_eq!(read.entries[0].duration_sec, Some(240));
    assert_eq!(read.entries[0].bpm.as_deref(), Some("128"));
    assert_eq!(read.entries[0].played_duration_ms, Some(307_000));
    assert_eq!(read.entries[1].deck, 2);
    assert_eq!(read.entries[1].title.as_deref(), Some("=HYPERLINK"));
    assert_eq!(read.entries[1].track_id, None);
    assert_eq!(read.entries[1].ended_at, None);
}

#[test]
fn parse_reports_malformed_xml() {
    assert!(parse_document(b"<playlist><title>x</wrong></playlist>").is_err());
}

#[test]
fn parse_fills_missing_session_title() {
    let read = parse_document(b"<playlist><trackList></trackList></playlist>").unwrap();
    assert_eq!(read.session.title, "Session");
    assert!(!read.session.id.is_empty());
    assert!(read.entries.is_empty());
}

#[test]
fn csv_field_guards_formulas_and_quotes() {
    assert_eq!(csv_field("=SUM(A1)"), "'=SUM(A1)");
    assert_eq!(csv_field("-5"), "'-5");
    assert_eq!(csv_field("a,b"), "\"a,b\"");
    assert_eq!(csv_field("say \"hi\""), "\"say \"\"hi\"\"\"");
    assert_eq!(csv_field("plain"), "plain");
    assert_eq!(csv_field(""), "");
}

#[test]
fn export_body_matches_format() {
    let doc = sample_document();
    assert_eq!(export_body(&doc, HistoryExportFormat::Txt), render_txt(&doc));
    assert_eq!(export_body(&doc, HistoryExportFormat::Csv), render_csv(&doc));
    assert_eq!(export_body(&doc, HistoryExportFormat::M3u8), render_m3u8(&doc));
}

#[test]
fn csv_rows_number_entries() {
    let doc = sample_document();
    let body = render_csv(&doc);
    let lines: Vec<&str> = body.lines().collect();
    assert_eq!(lines.len(), 3);
    assert_eq!(
        lines[1],
        "1,2026-08-27T14:31:05Z,2026-08-27T14:36:12Z,307000,1,Rock & Roll,Artist <live>,Album,128,Am,USXXX,file:///music/a.flac,t1"
    );
    assert_eq!(lines[2], "2,2026-08-27T14:40:00Z,,,2,'=HYPERLINK,,,,,,file:///music/b.mp3,");
}

#[test]
fn xml_escape_replaces_markup() {
    assert_eq!(xml_escape("a & <b> \"c\""), "a &amp; &lt;b&gt; &quot;c&quot;");
}

#[test]
fn session_filename_keeps_alphanumerics() {
    assert_eq!(
        session_filename_from_started_at("2026-08-27T14:31:05Z"),
        "20260827T143105Z.xspf"
    );
}

#[test]
fn render_document_date_is_first_ten_bytes() {
    let doc = sample_document();
    let text = render_document(&doc);
    let date = &doc.session.started_at[..10];
    assert!(text.contains(&format!("  <date>{date}</date>\n")));
    assert!(text.contains("<title>Rock &amp; Roll</title>"));
}

const SAMPLE_XSPF: &[u8] = br#"<playlist><title>Test Set</title><extension><session id="s1" closed="false"/></extension><trackList><track><location>file:///a.flac</location><title>Title</title><extension><entry id="e1" deck="1" ended_at="2026-08-27T14:36:12Z" isrc=""/></extension></track></trackList></playlist>"#;

#[test]
fn parse_document_reads_a_written_session() {
    let d = parse_document(SAMPLE_XSPF).unwrap();
    assert_eq!(d.session.title, "Test Set");
    assert_eq!(d.session.id, "s1");
    assert!(!d.session.closed);
    assert_eq!(d.entries.len(), 1);
    assert_eq!(d.entries[0].id, "e1");
    assert_eq!(d.entries[0].deck, 1);
    assert_eq!(d.entries[0].location, "file:///a.flac");
    assert_eq!(d.entries[0].title.as_deref(), Some("Title"));
    assert_eq!(d.entries[0].ended_at.as_deref(), Some("2026-08-27T14:36:12Z"));
    assert_eq!(d.entries[0].isrc, None);
}

#[test]
fn parse_document_reports_reader_errors() {
    let r = parse_document(b"<playlist><title>x</wrong></playlist>");
    assert!(r.is_err());
}

#[test]
fn parse_document_fills_missing_session_fields() {
    let d = parse_document(b"<playlist><trackList/></playlist>").unwrap();
    assert_eq!(d.session.title, "Session");
    assert_eq!(d.session.id.len(), 36);
    assert!(d.entries.is_empty());
}

#[test]
fn parse_document_keeps_only_numeric_bpm() {
    let xml = br#"<playlist><trackList><track><extension><entry id="a" bpm="fast"/></extension></track><track><extension><entry id="b" bpm="1.25e2"/></extension></track><track><extension><entry id="c" bpm=""/></extension></track></trackList></playlist>"#;
    let d = parse_document(xml).unwrap();
    assert_eq!(d.entries.len(), 3);
    assert_eq!(d.entries[0].bpm, None);
    assert_eq!(d.entries[1].bpm.as_deref(), Some("1.25e2"));
    assert_eq!(d.entries[2].bpm, None);
}

#[test]
fn float_text_follows_the_f64_grammar() {
    for ok in ["128", "128.0", ".5", "5.", "-1e3", "+2E-7", "inf", "-Infinity", "NaN", "0001"] {
        assert!(float_text_ok(ok), "{ok}");
        assert!(ok.parse::<f64>().is_ok(), "{ok}");
    }
    for bad in ["", ".", "1.2.3", "e5", "1e", "1e+", " 1", "1 ", "abc", "--1", "infin", "0x10"] {
        assert!(!float_text_ok(bad), "{bad}");
        assert!(bad.parse::<f64>().is_err(), "{bad}");
    }
}

#[test]
fn xml_stream_hands_out_tokens_in_order() {
    let mut s = XmlStream::new(b"<a x='1'>hi</a>");
    match s.next() {
        XmlEvent::Start(t) => {
            assert_eq!(t.name, "a");
            assert_eq!(t.name_len, 1);
        }
        other => panic!("{other:?}"),
    }
    match s.next() {
        XmlEvent::Text(t) => assert_eq!(t, "hi"),
        other => panic!("{other:?}"),
    }
    match s.next() {
        XmlEvent::End(n) => assert_eq!(n, "a"),
        other => panic!("{other:?}"),
    }
    assert!(matches!(s.next(), XmlEvent::Eof));
}

#[test]
fn new_session_has_a_uuid_and_a_utc_stamp() {
    let d = HistoryDocument::new_session("S");
    let id = d.session.id.as_bytes();
    assert_eq!(id.len(), 36);
    assert_eq!(id[14], b'4');
    assert!(matches!(id[19], b'8' | b'9' | b'a' | b'b'));
    let t = d.session.started_at.as_bytes();
    assert_eq!(t.len(), 20);
    assert_eq!(t[10], b'T');
    assert_eq!(t[19], b'Z');
    assert_eq!(d.session.started_at, d.session.last_activity_at);
}

fn tag(content: &str) -> XmlTag {
    let name: String = content.split(' ').next().unwrap().to_string();
    XmlTag { name_len: name.len(), name, content: content.to_string() }
}

#[test]
fn parse_events_assembles_the_sample_tokens() {
    let events = vec![
        XmlEvent::Start(tag("playlist")),
        XmlEvent::Start(tag("title")),
        XmlEvent::Text("Test Set".into()),
        XmlEvent::End("title".into()),
        XmlEvent::Start(tag("extension")),
        XmlEvent::Empty(tag(r#"session id="s1" closed="false""#)),
        XmlEvent::End("extension".into()),
        XmlEvent::Start(tag("trackList")),
        XmlEvent::Start(tag("track")),
        XmlEvent::Start(tag("location")),
        XmlEvent::Text("file:///a.flac".into()),
        XmlEvent::End("location".into()),
        XmlEvent::Start(tag("title")),
        XmlEvent::Text("Title".into()),
        XmlEvent::End("title".into()),
        XmlEvent::Start(tag("extension")),
        XmlEvent::Empty(tag(r#"entry id="e1" deck="1" ended_at="2026-08-27T14:36:12Z" isrc="""#)),
        XmlEvent::End("extension".into()),
        XmlEvent::End("track".into()),
        XmlEvent::End("trackList".into()),
        XmlEvent::End("playlist".into()),
        XmlEvent::Eof,
    ];
    let ids: Vec<String> = (0..events.len()).map(|i| format!("id{i}")).collect();
    let d = parse_events(&events, &ids, "2026-01-01T00:00:00Z", "fallback").unwrap();
    assert_eq!(d.session.title, "Test Set");
    assert_eq!(d.session.id, "s1");
    assert_eq!(d.entries.len(), 1);
    assert_eq!(d.entries[0].id, "e1");
    assert_eq!(d.entries[0].deck, 1);
    assert_eq!(d.entries[0].location, "file:///a.flac");
    assert_eq!(d.entries[0].isrc, None);
    assert_eq!(d.entries[0].started_at, "2026-01-01T00:00:00Z");
    let err = parse_events(&[XmlEvent::Error("bad".into())], &ids, "now", "fb").unwrap_err();
    assert_eq!(err, "bad");
}

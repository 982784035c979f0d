use semdesk::parsers::{kind_for_mime, DocumentKind, ParseError, Parser};

#[test]
fn text_and_pdf_are_recognised() {
    let p = Parser::new();
    assert!(matches!(p.document_kind("/tmp/a.txt", true), Ok(DocumentKind::Text)));
    assert!(matches!(p.document_kind("/tmp/b.pdf", true), Ok(DocumentKind::Pdf)));
}

#[test]
fn other_types_are_unsupported() {
    let p = Parser::new();
    match p.document_kind("/tmp/c.png", true) {
        Err(ParseError::UnsupportedFileType(e)) => assert_eq!(e.filename(), "/tmp/c.png"),
        _ => panic!("expected an unsupported type"),
    }
    assert!(matches!(p.document_kind("/tmp/noext", true), Err(ParseError::UnsupportedFileType(_))));
}

#[test]
fn missing_file_is_not_found() {
    let p = Parser::new();
    match p.document_kind("/tmp/a.txt", false) {
        Err(ParseError::FileNotFound(e)) => assert_eq!(e.describe(), "FileNotFoundError: /tmp/a.txt"),
        _ => panic!("expected not found"),
    }
}

#[test]
fn media_types_map_to_readers() {
    assert_eq!(kind_for_mime(Some("application/pdf".to_string())), Some(DocumentKind::Pdf));
    assert_eq!(kind_for_mime(Some("text/plain".to_string())), Some(DocumentKind::Text));
    assert_eq!(kind_for_mime(Some("text/html".to_string())), None);
    assert_eq!(kind_for_mime(None), None);
}

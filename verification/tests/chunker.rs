use yamlsplit::chunk::ChunkReader;
use yamlsplit::chunk::ChunkStep;
use yamlsplit::chunk::Chunker;
use yamlsplit::chunk::EventKind;
use yamlsplit::encoding::Encoding;
use yamlsplit::encoding::Transcoder;
use yamlsplit::source::ByteSource;

fn utf8_chunker(bytes: &[u8]) -> Chunker {
    Chunker::new(Transcoder::new(ByteSource::new(bytes.to_vec()), Encoding::UTF8))
}

/// Pulls the whole canonical stream through the chunker, as the external
/// parser would before reporting events.
fn feed_all(chunker: &mut Chunker) {
    loop {
        let bytes = chunker.read(8).expect("stream decodes cleanly");
        if bytes.is_empty() {
            return;
        }
    }
}

fn expect_document(step: ChunkStep) -> Vec<u8> {
    match step {
        ChunkStep::Document(d) => d,
        ChunkStep::Continue => panic!("expected a document, chunker continued"),
        ChunkStep::Finished => panic!("expected a document, chunker finished"),
    }
}

#[test]
fn two_documents_split_at_reported_offsets() {
    // boundaries (0, 9) and (9, 14) over "doc1\n---\ndoc2\n"
    let mut c = utf8_chunker(b"doc1\n---\ndoc2\n");
    feed_all(&mut c);
    assert!(matches!(c.handle_event(EventKind::DocumentStart, 0), ChunkStep::Continue));
    let first = expect_document(c.handle_event(EventKind::DocumentEnd, 9));
    assert_eq!(first, b"doc1\n---\n");
    assert!(matches!(c.handle_event(EventKind::DocumentStart, 9), ChunkStep::Continue));
    let second = expect_document(c.handle_event(EventKind::DocumentEnd, 14));
    assert_eq!(second, b"doc2\n");
    assert!(matches!(c.handle_event(EventKind::StreamEnd, 14), ChunkStep::Finished));
}

#[test]
fn empty_input_yields_no_documents() {
    let mut c = utf8_chunker(b"");
    feed_all(&mut c);
    assert!(matches!(c.handle_event(EventKind::StreamEnd, 0), ChunkStep::Finished));
}

#[test]
fn document_start_discards_leading_material() {
    // directives and separators before the document are trimmed away
    let input = b"%YAML 1.2\n---\na: b\n...\n";
    let mut c = utf8_chunker(input);
    feed_all(&mut c);
    assert!(matches!(c.handle_event(EventKind::DocumentStart, 10), ChunkStep::Continue));
    let doc = expect_document(c.handle_event(EventKind::DocumentEnd, 19));
    assert_eq!(doc, &input[10..19]);
}

#[test]
fn other_events_are_ignored() {
    let mut c = utf8_chunker(b"a: b\n");
    feed_all(&mut c);
    assert!(matches!(c.handle_event(EventKind::Other, 0), ChunkStep::Continue));
    assert!(matches!(c.handle_event(EventKind::Other, 3), ChunkStep::Continue));
    assert!(matches!(c.handle_event(EventKind::DocumentStart, 0), ChunkStep::Continue));
    let doc = expect_document(c.handle_event(EventKind::DocumentEnd, 5));
    assert_eq!(doc, b"a: b\n");
}

#[test]
fn chunker_transcodes_wide_input() {
    // "a\n" in UTF-16BE with a byte order mark; offsets refer to the
    // canonical UTF-8 stream
    let mut c = Chunker::new(Transcoder::from_reader(ByteSource::new(vec![
        0xFE, 0xFF, 0x00, b'a' as u8, 0x00, b'\n' as u8,
    ])));
    feed_all(&mut c);
    assert!(matches!(c.handle_event(EventKind::DocumentStart, 0), ChunkStep::Continue));
    let doc = expect_document(c.handle_event(EventKind::DocumentEnd, 2));
    assert_eq!(doc, b"a\n");
}

#[test]
fn reader_take_after_trim_returns_exact_span() {
    // read in two chunks, trim to 2, take to 6: exactly the bytes [2, 6)
    let mut r = ChunkReader::new(Transcoder::new(
        ByteSource::new(b"0123456789".to_vec()),
        Encoding::UTF8,
    ));
    assert_eq!(r.read(3).unwrap(), b"012");
    assert_eq!(r.read(4).unwrap(), b"3456");
    r.trim_to_start(2);
    assert_eq!(r.take_to_end(6), b"2345");
    // the tail stays captured for the next span
    assert_eq!(r.take_to_end(7), b"6");
}

#[test]
fn reader_trim_to_current_start_is_a_no_op() {
    let mut r = ChunkReader::new(Transcoder::new(
        ByteSource::new(b"abcd".to_vec()),
        Encoding::UTF8,
    ));
    assert_eq!(r.read(4).unwrap(), b"abcd");
    r.trim_to_start(0);
    assert_eq!(r.take_to_end(4), b"abcd");
}

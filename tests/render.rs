use zcatr::render::{Next, StreamRenderer, BUFFER_SIZE, MAGIC_BYTES_SIZE};
use zcatr::sniff::{category_of_mime, classify, ContentCategory};

const PNG_MAGIC: [u8; 8] = [0x89, 0x50, 0x4E, 0x47, 0x0D, 0x0A, 0x1A, 0x0A];
const NOTICE: &str = "Preview not available in console.";

/// Drives a renderer over `data`, as a source that hands out at most `chunk`
/// bytes per read would; returns the fragments in order.
fn render_chunked(data: &[u8], chunk: usize) -> Vec<String> {
    let mut pos = 0usize;
    let mut take = |max: usize| -> Vec<u8> {
        let n = max.min(chunk).min(data.len() - pos);
        let out = data[pos..pos + n].to_vec();
        pos += n;
        out
    };
    let window = take(MAGIC_BYTES_SIZE);
    let (mut renderer, step) = StreamRenderer::begin(&window);
    let mut fragments = vec![step.text];
    let mut next = step.next;
    while let Next::Read(max) = next {
        assert!(max > 0 && max <= BUFFER_SIZE);
        let bytes = take(max);
        let step = renderer.feed(&bytes);
        fragments.push(step.text);
        next = step.next;
    }
    fragments
}

fn joined(fragments: &[String]) -> String {
    fragments.concat()
}

#[test]
fn plain_text_renders_verbatim() {
    let text = "Hello, World!\nThis is a test file.\n";
    let fragments = render_chunked(text.as_bytes(), BUFFER_SIZE);
    assert_eq!(joined(&fragments), text);
    assert!(!joined(&fragments).contains(NOTICE));
}

#[test]
fn png_magic_renders_only_the_notice() {
    let mut data = PNG_MAGIC.to_vec();
    data.extend_from_slice(b"payload bytes that must not appear");
    let fragments = render_chunked(&data, BUFFER_SIZE);
    assert_eq!(fragments, vec![NOTICE.to_string()]);
}

#[test]
fn png_window_is_rejected_at_begin() {
    let (_renderer, step) = StreamRenderer::begin(&PNG_MAGIC);
    assert_eq!(step.text, NOTICE);
    assert_eq!(step.next, Next::Stop);
}

#[test]
fn empty_stream_renders_nothing() {
    let (mut renderer, step) = StreamRenderer::begin(&[]);
    assert_eq!(step.text, "");
    assert_eq!(step.next, Next::Read(BUFFER_SIZE));
    let step = renderer.feed(&[]);
    assert_eq!(step.text, "");
    assert_eq!(step.next, Next::Stop);
}

#[test]
fn euro_sign_split_after_first_byte_stays_whole() {
    // "a€b" with the boundary between the first and second byte of the euro sign
    let (mut renderer, step) = StreamRenderer::begin(&[b'a', 0xE2]);
    assert_eq!(step.text, "a");
    assert_eq!(step.next, Next::Read(BUFFER_SIZE - 1));
    let step = renderer.feed(&[0x82, 0xAC, b'b']);
    assert_eq!(step.text, "€b");
    let step = renderer.feed(&[]);
    assert_eq!(step.text, "");
    assert_eq!(step.next, Next::Stop);
}

#[test]
fn euro_sign_at_end_of_stream_is_emitted() {
    let (mut renderer, step) = StreamRenderer::begin(&[0xE2]);
    assert_eq!(step.text, "");
    let step = renderer.feed(&[0x82, 0xAC]);
    assert_eq!(step.text, "€");
    assert_eq!(renderer.feed(&[]).next, Next::Stop);
}

#[test]
fn every_fragment_is_whole_characters_at_every_chunk_size() {
    let text = "Grüße, 世界! 🦀 € naïve — ok\n".repeat(40);
    let whole = render_chunked(text.as_bytes(), text.len());
    assert_eq!(joined(&whole), text);
    for chunk in [1usize, 2, 3, 4, 8192] {
        let fragments = render_chunked(text.as_bytes(), chunk);
        assert_eq!(joined(&fragments), joined(&whole), "chunk size {}", chunk);
        for fragment in &fragments {
            assert!(!fragment.contains('\u{FFFD}'));
        }
    }
}

#[test]
fn truncated_character_at_end_is_dropped() {
    let (mut renderer, step) = StreamRenderer::begin(&[b'x', b'y', 0xF0, 0x9F]);
    assert_eq!(step.text, "xy");
    let step = renderer.feed(&[]);
    assert_eq!(step.text, "");
    assert_eq!(step.next, Next::Stop);
}

#[test]
fn continuation_bytes_only_stop_rendering() {
    let (_renderer, step) = StreamRenderer::begin(&[0x80, 0x81, 0xBF]);
    assert_eq!(step.text, "");
    assert_eq!(step.next, Next::Stop);
}

#[test]
fn malformed_bytes_are_substituted() {
    // a lone continuation byte in the middle is replaced, nothing is dropped
    let (_renderer, step) = StreamRenderer::begin(&[b'a', 0x80, b'b', b'\n', b'c']);
    assert_eq!(step.text, "a\u{FFFD}b\nc");
}

#[test]
fn stray_bytes_after_last_character_are_dropped() {
    let (_renderer, step) = StreamRenderer::begin(&[b'o', b'k', 0x80, 0x80]);
    assert_eq!(step.text, "ok");
    assert_eq!(step.next, Next::Read(BUFFER_SIZE));
}

#[test]
fn feeding_a_stopped_renderer_gives_nothing() {
    let (mut renderer, _step) = StreamRenderer::begin(&PNG_MAGIC);
    let step = renderer.feed(b"more");
    assert_eq!(step.text, "");
    assert_eq!(step.next, Next::Stop);
}

#[test]
fn begin_classified_takes_the_category() {
    let (_r, step) = StreamRenderer::begin_classified(ContentCategory::NonPreviewable, b"text");
    assert_eq!(step.text, NOTICE);
    let (_r, step) = StreamRenderer::begin_classified(ContentCategory::Unknown, b"text");
    assert_eq!(step.text, "text");
    let (_r, step) = StreamRenderer::begin_classified(ContentCategory::PreviewableText, b"<a/>");
    assert_eq!(step.text, "<a/>");
}

#[test]
fn classify_is_repeatable() {
    let window = b"<?xml version=\"1.0\"?><root/>";
    assert_eq!(classify(window), classify(window));
    assert_eq!(classify(&PNG_MAGIC), classify(&PNG_MAGIC));
}

#[test]
fn classify_known_windows() {
    assert_eq!(classify(&PNG_MAGIC), ContentCategory::NonPreviewable);
    assert_eq!(classify(&[]), ContentCategory::Unknown);
    assert_eq!(classify(b"Hello, World!\n"), ContentCategory::Unknown);
    assert_eq!(
        classify(b"<?xml version=\"1.0\" encoding=\"UTF-8\"?>\n<root/>"),
        ContentCategory::PreviewableText
    );
    assert_eq!(classify(b"%PDF-1.5\n%\x82\x82"), ContentCategory::NonPreviewable);
}

#[test]
fn categories_of_labels() {
    for label in ["text/plain", "text/markdown", "text/csv", "application/json", "application/xml", "text/xml"] {
        assert_eq!(category_of_mime(Some(label)), ContentCategory::PreviewableText);
    }
    assert_eq!(category_of_mime(Some("image/png")), ContentCategory::NonPreviewable);
    assert_eq!(category_of_mime(Some("text/html")), ContentCategory::NonPreviewable);
    assert_eq!(category_of_mime(None), ContentCategory::Unknown);
}

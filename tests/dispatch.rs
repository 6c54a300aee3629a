use zcatr::dispatch::{inner_name, is_entry_listed, is_tar_name, sniff_source_kind, source_kind, Container, SourceKind};
use zcatr::display::{info_line, RenderConfig};

#[test]
fn source_kinds_of_labels() {
    assert_eq!(source_kind(Some("application/zip")), SourceKind::Zip);
    assert_eq!(source_kind(Some("application/x-tar")), SourceKind::Tar);
    assert_eq!(source_kind(Some("application/gzip")), SourceKind::Gzip);
    assert_eq!(source_kind(Some("application/x-bzip2")), SourceKind::Bzip2);
    assert_eq!(source_kind(Some("text/plain")), SourceKind::Plain);
    assert_eq!(source_kind(None), SourceKind::Plain);
}

#[test]
fn sniffed_source_kinds() {
    assert_eq!(sniff_source_kind(&[0x1F, 0x8B, 0x08, 0x00]), SourceKind::Gzip);
    assert_eq!(sniff_source_kind(b"BZh91AY&SY"), SourceKind::Bzip2);
    assert_eq!(sniff_source_kind(b"PK\x03\x04\x14\x00\x00\x00"), SourceKind::Zip);
    assert_eq!(sniff_source_kind(b"THIS IS A DUMMY TEXT"), SourceKind::Plain);
    assert_eq!(sniff_source_kind(&[]), SourceKind::Plain);
}

#[test]
fn inner_names() {
    assert_eq!(inner_name("text.txt.gz"), "text.txt");
    assert_eq!(inner_name("/tmp/x/test.tar.bz2"), "/tmp/x/test.tar");
    assert_eq!(inner_name("noext"), "");
    assert_eq!(inner_name("año.txt.gz"), "año.txt");
}

#[test]
fn tar_names() {
    assert!(is_tar_name("test.tar"));
    assert!(is_tar_name("/a/b.tar"));
    assert!(!is_tar_name("text.txt"));
    assert!(!is_tar_name("tar"));
    assert!(!is_tar_name(".ta"));
}

#[test]
fn listed_entries() {
    assert!(is_entry_listed(Container::Tar, "file1.txt", false));
    assert!(!is_entry_listed(Container::Tar, "dir/", true));
    assert!(!is_entry_listed(Container::Tar, "._file1.txt", false));
    assert!(!is_entry_listed(Container::Tar, "dir/._meta", false));
    assert!(is_entry_listed(Container::Zip, "._file1.txt", false));
    assert!(!is_entry_listed(Container::Zip, "empty_dir/", true));
}

#[test]
fn header_and_footer_follow_styling() {
    let styled = RenderConfig { with_styling: true };
    let rule = "─".repeat(40);
    assert_eq!(styled.header("a.txt"), format!("📄 Content from \"a.txt\":\n{}\n", rule));
    assert_eq!(styled.footer(), format!("\n{}\n", rule));
    let plain = RenderConfig { with_styling: false };
    assert_eq!(plain.header("a.txt"), "");
    assert_eq!(plain.footer(), "");
}

#[test]
fn info_lines() {
    assert_eq!(info_line("text.txt", 36), "|\n├── File: text.txt\n|   Size: 36 Bytes\n");
    assert_eq!(info_line("big.bin", 1536), "|\n├── File: big.bin\n|   Size: 1.50 KB\n");
}

//! Choosing how a file is opened, naming what it holds, and the text written
//! around each rendered or listed stream.
use vstd::prelude::*;
use vstd::string::*;
use crate::sniff::{label_view, same_text, sniff_label, sniffed_mime};

verus! {

/// How a top-level input file is opened, by its sniffed format.
#[derive(Debug, Clone, Copy, PartialEq, Eq, Structural)]
pub enum SourceKind {
    Zip,
    Tar,
    Gzip,
    Bzip2,
    /// Anything else is read as one plain stream.
    Plain,
}

/// A container whose entries are walked one by one.
#[derive(Debug, Clone, Copy, PartialEq, Eq, Structural)]
pub enum Container {
    Tar,
    Zip,
}

/// What is shown of each stream: its size, or its content.
#[derive(Debug, Clone, Copy, PartialEq, Eq, Structural)]
pub enum Mode {
    Info,
    Content,
}

/// The source kind that a sniffed label selects.
pub open spec fn source_kind_of(mime: Option<Seq<char>>) -> SourceKind {
    match mime {
        Some(m) => if m == "application/zip"@ {
            SourceKind::Zip
        } else if m == "application/x-tar"@ {
            SourceKind::Tar
        } else if m == "application/gzip"@ {
            SourceKind::Gzip
        } else if m == "application/x-bzip2"@ {
            SourceKind::Bzip2
        } else {
            SourceKind::Plain
        },
        None => SourceKind::Plain,
    }
}

/// The source kind for a sniffed label: ZIP, TAR, GZIP and BZIP2 by their
/// MIME labels, anything else (or nothing) plain.
pub fn source_kind(mime: Option<&str>) -> (r: SourceKind)
    ensures
        r == source_kind_of(
            match mime {
                Some(m) => Some(m@),
                None => None,
            },
        ),
{
    match mime {
        None => SourceKind::Plain,
        Some(m) => {
            if same_text(m, "application/zip") {
                SourceKind::Zip
            } else if same_text(m, "application/x-tar") {
                SourceKind::Tar
            } else if same_text(m, "application/gzip") {
                SourceKind::Gzip
            } else if same_text(m, "application/x-bzip2") {
                SourceKind::Bzip2
            } else {
                SourceKind::Plain
            }
        },
    }
}

/// Sniffs the leading bytes of a file and picks how it is opened.
pub fn sniff_source_kind(head: &[u8]) -> (r: SourceKind)
    ensures
        r == source_kind_of(sniffed_mime(head@)),
{
    let label = sniff_label(head);
    proof {
        assert(label_view(label) == sniffed_mime(head@));
    }
    match label {
        Some(s) => source_kind(Some(s.as_str())),
        None => source_kind(None),
    }
}

/// Index of the last `c` in `s`, or -1.
pub open spec fn last_index_of(s: Seq<char>, c: char) -> int
    decreases s.len(),
{
    if s.len() == 0 {
        -1
    } else if s.last() == c {
        s.len() - 1
    } else {
        last_index_of(s.drop_last(), c)
    }
}

/// The name of what a compressed file holds: its path without the last
/// dot-separated extension, or empty when the path has no dot.
pub open spec fn inner_name_of(path: Seq<char>) -> Seq<char> {
    let k = last_index_of(path, '.');
    if k < 0 {
        Seq::empty()
    } else {
        path.subrange(0, k)
    }
}

/// True when `s` ends with ".tar".
pub open spec fn ends_with_tar(s: Seq<char>) -> bool {
    s.len() >= 4 && s.subrange(s.len() - 4, s.len() as int) == seq!['.', 't', 'a', 'r']
}

/// True when `s` holds the platform-metadata marker "._".
pub open spec fn has_metadata_marker(s: Seq<char>) -> bool {
    exists|i: int| 0 <= i < s.len() - 1 && s[i] == '.' && #[trigger] s[i + 1] == '_'
}

/// Whether an entry of a container is shown: never a directory, and in a TAR
/// archive never an entry whose name holds the metadata marker "._".
pub open spec fn entry_listed(container: Container, name: Seq<char>, is_dir: bool) -> bool {
    !is_dir && (container == Container::Tar ==> !has_metadata_marker(name))
}

/// The path without its last extension (see [`inner_name_of`]).
pub fn inner_name(path: &str) -> (r: String)
    ensures
        r@ == inner_name_of(path@),
{
    let n = path.unicode_len();
    let mut i: usize = n;
    assert(path@.subrange(0, i as int) =~= path@);
    while i > 0
        invariant
            i <= path@.len(),
            n == path@.len(),
            last_index_of(path@, '.') == last_index_of(path@.subrange(0, i as int), '.'),
        decreases i,
    {
        if path.get_char(i - 1) == '.' {
            return path.substring_char(0, i - 1).to_owned();
        }
        assert(path@.subrange(0, i as int).drop_last() =~= path@.subrange(0, i - 1));
        i = i - 1;
    }
    String::new()
}

/// True when the name ends with ".tar".
pub fn is_tar_name(name: &str) -> (r: bool)
    ensures
        r == ends_with_tar(name@),
{
    let n = name.unicode_len();
    if n < 4 {
        return false;
    }
    let r = name.get_char(n - 4) == '.' && name.get_char(n - 3) == 't' && name.get_char(n - 2) == 'a'
        && name.get_char(n - 1) == 'r';
    proof {
        let tail = name@.subrange(n - 4, n as int);
        if r {
            assert(tail =~= seq!['.', 't', 'a', 'r']);
        } else if tail == seq!['.', 't', 'a', 'r'] {
            assert(tail[0] == name@[n - 4]);
            assert(tail[1] == name@[n - 3]);
            assert(tail[2] == name@[n - 2]);
            assert(tail[3] == name@[n - 1]);
        }
    }
    r
}

/// Whether an entry is shown (see [`entry_listed`]).
pub fn is_entry_listed(container: Container, name: &str, is_dir: bool) -> (r: bool)
    ensures
        r == entry_listed(container, name@, is_dir),
{
    if is_dir {
        return false;
    }
    match container {
        Container::Zip => true,
        Container::Tar => {
            let n = name.unicode_len();
            let mut i: usize = 0;
            while n > 0 && i < n - 1
                invariant
                    n == name@.len(),
                    i <= n,
                    container == Container::Tar,
                    !is_dir,
                    forall|k: int| 0 <= k < i && k < n - 1 ==> !(name@[k] == '.' && #[trigger] name@[k + 1] == '_'),
                decreases n - i,
            {
                if name.get_char(i) == '.' && name.get_char(i + 1) == '_' {
                    let ghost k: int = i as int;
                    assert(name@[k] == '.' && name@[k + 1] == '_');
                    assert(has_metadata_marker(name@));
                    return false;
                }
                i = i + 1;
            }
            assert(!has_metadata_marker(name@)) by {
                if has_metadata_marker(name@) {
                    let k = choose|k: int|
                        0 <= k < name@.len() - 1 && name@[k] == '.' && #[trigger] name@[k + 1] == '_';
                    assert(!(name@[k] == '.' && name@[k + 1] == '_'));
                }
            }
            true
        },
    }
}

} // verus!

//! The text written around each stream: the header and footer of a rendered
//! stream, and the line that lists a stream's size.
use vstd::prelude::*;
use vstd::string::*;
use crate::size::{format_file_size, size_text};

verus! {

/// Width of the horizontal rule around rendered content.
pub const RULE_WIDTH: usize = 40;

/// A horizontal rule of box-drawing characters.
pub open spec fn rule_text() -> Seq<char> {
    Seq::new(RULE_WIDTH as nat, |_i: int| '─')
}

/// The header written before the content of the stream named `name`.
pub open spec fn header_text(name: Seq<char>) -> Seq<char> {
    "📄 Content from \""@ + name + "\":\n"@ + rule_text() + "\n"@
}

/// The footer written after a rendered stream.
pub open spec fn footer_text() -> Seq<char> {
    "\n"@ + rule_text() + "\n"@
}

/// The lines that list a stream's name and size.
pub open spec fn info_text(name: Seq<char>, size: nat) -> Seq<char> {
    "|\n├── File: "@ + name + "\n|   Size: "@ + size_text(size) + "\n"@
}

/// Settings that hold for a whole run.
#[derive(Debug, Clone, Copy, PartialEq, Eq, Structural)]
pub struct RenderConfig {
    /// Whether content is framed by a header and a footer.
    pub with_styling: bool,
}

fn push_rule(s: &mut String)
    ensures
        final(s)@ == old(s)@ + rule_text(),
{
    let mut i: usize = 0;
    while i < RULE_WIDTH
        invariant
            i <= RULE_WIDTH,
            s@ == old(s)@ + Seq::new(i as nat, |_i: int| '─'),
        decreases RULE_WIDTH - i,
    {
        proof {
            reveal_strlit("─");
        }
        s.append("─");
        i = i + 1;
        assert(s@ =~= old(s)@ + Seq::new(i as nat, |_i: int| '─'));
    }
}

impl RenderConfig {
    /// The header for the stream `name`: empty without styling.
    pub fn header(&self, name: &str) -> (r: String)
        ensures
            r@ == (if self.with_styling {
                header_text(name@)
            } else {
                Seq::empty()
            }),
    {
        let mut s = String::new();
        if self.with_styling {
            s.append("📄 Content from \"");
            s.append(name);
            s.append("\":\n");
            push_rule(&mut s);
            s.append("\n");
            assert(s@ =~= header_text(name@));
        }
        s
    }

    /// The footer after a rendered stream: empty without styling.
    pub fn footer(&self) -> (r: String)
        ensures
            r@ == (if self.with_styling {
                footer_text()
            } else {
                Seq::empty()
            }),
    {
        let mut s = String::new();
        if self.with_styling {
            s.append("\n");
            push_rule(&mut s);
            s.append("\n");
            assert(s@ =~= footer_text());
        }
        s
    }
}

/// The lines that list the stream `name` of `size` bytes.
pub fn info_line(name: &str, size: usize) -> (r: String)
    ensures
        r@ == info_text(name@, size as nat),
{
    let mut s = String::new();
    s.append("|\n├── File: ");
    s.append(name);
    s.append("\n|   Size: ");
    let size_words = format_file_size(size);
    s.append(size_words.as_str());
    s.append("\n");
    assert(s@ =~= info_text(name@, size as nat));
    s
}

} // verus!

//! The streaming renderer: a state machine that takes the bytes of one stream,
//! read by read, and hands back text fragments that never split a character.
//!
//! The caller owns the stream. It reads a window of leading bytes and passes
//! it to [`StreamRenderer::begin`]; after that it performs each [`Next`] that
//! the renderer asks for and hands the bytes it obtained to
//! [`StreamRenderer::feed`], until the renderer answers [`Next::Stop`].
use vstd::prelude::*;
use vstd::utf8::*;
use crate::boundary::{cut_of, cut_point, lemma_cut_of_valid_prefix};
use crate::sniff::{classify, classify_spec, is_rendered, ContentCategory};

verus! {

/// How many leading bytes are read for sniffing.
pub const MAGIC_BYTES_SIZE: usize = 512;

/// Capacity of the render buffer: the carry tail plus one read.
pub const BUFFER_SIZE: usize = 8192;

/// What the caller does after a step.
#[derive(Debug, Clone, Copy, PartialEq, Eq, Structural)]
pub enum Next {
    /// Read up to this many bytes from the stream and feed them.
    Read(usize),
    /// The stream is done: read no more for display.
    Stop,
}

/// The outcome of one step: text to append to the output, and what to do next.
pub struct Step {
    pub text: String,
    pub next: Next,
}

/// What lossy UTF-8 decoding makes of a byte range: each invalid run is
/// replaced by U+FFFD.
pub uninterp spec fn lossy_text(bytes: Seq<u8>) -> Seq<char>;

/// Text of an emitted byte range: valid UTF-8 is taken verbatim; anything
/// else has each invalid run replaced by U+FFFD and every line kept.
pub open spec fn fragment_text(bytes: Seq<u8>) -> Seq<char> {
    if valid_utf8(bytes) {
        decode_utf8(bytes)
    } else {
        lossy_text(bytes)
    }
}

/// Relies on `String::from_utf8_lossy`: valid UTF-8 yields the characters it
/// encodes; otherwise invalid runs become U+FFFD, as a function of the bytes.
#[verifier::external_body]
fn decode_fragment(bytes: &[u8]) -> (r: String)
    ensures
        valid_utf8(bytes@) ==> r@ == decode_utf8(bytes@),
        !valid_utf8(bytes@) ==> r@ == lossy_text(bytes@),
{
    String::from_utf8_lossy(bytes).into_owned()
}

/// The notice written in place of a binary stream.
pub open spec fn notice_text() -> Seq<char> {
    "Preview not available in console."@
}

/// Text handed out for a filled buffer.
pub open spec fn scan_text(buf: Seq<u8>) -> Seq<char> {
    match cut_of(buf) {
        Some((e, _k)) => fragment_text(buf.subrange(0, e)),
        None => Seq::empty(),
    }
}

/// Carry tail kept from a filled buffer.
pub open spec fn scan_carry(buf: Seq<u8>) -> Seq<u8> {
    match cut_of(buf) {
        Some((_e, k)) => buf.subrange(k, buf.len() as int),
        None => Seq::empty(),
    }
}

/// Text handed out by a renderer that holds `carry` and is then fed `reads`
/// in order. An empty read, or the end of `reads`, ends the stream; a buffer
/// with no lead byte at all stops it.
pub open spec fn run_text(carry: Seq<u8>, reads: Seq<Seq<u8>>) -> Seq<char>
    decreases reads.len(),
{
    if reads.len() == 0 || reads[0].len() == 0 {
        Seq::empty()
    } else {
        let buf = carry + reads[0];
        if cut_of(buf) is None {
            Seq::empty()
        } else {
            scan_text(buf) + run_text(scan_carry(buf), reads.drop_first())
        }
    }
}

/// Text handed out for a rendered stream whose leading window is `window` and
/// whose later reads are `reads`.
pub open spec fn stream_text(window: Seq<u8>, reads: Seq<Seq<u8>>) -> Seq<char> {
    if cut_of(window) is None {
        Seq::empty()
    } else {
        scan_text(window) + run_text(scan_carry(window), reads)
    }
}

proof fn lemma_decode_concat(a: Seq<u8>, b: Seq<u8>)
    requires
        valid_utf8(a),
        valid_utf8(b),
    ensures
        valid_utf8(a + b),
        decode_utf8(a + b) == decode_utf8(a) + decode_utf8(b),
    decreases a.len(),
{
    valid_utf8_concat(a, b);
    if a.len() == 0 {
        assert(a + b =~= b);
        assert(decode_utf8(a) =~= Seq::<char>::empty());
        assert(decode_utf8(a) + decode_utf8(b) =~= decode_utf8(b));
    } else {
        let ab = a + b;
        assert(valid_first_scalar(a));
        let w = length_of_first_scalar(a);
        assert(ab[0] == a[0]);
        assert(w >= 2 ==> ab[1] == a[1]);
        assert(w >= 3 ==> ab[2] == a[2]);
        assert(w >= 4 ==> ab[3] == a[3]);
        assert(decode_first_scalar(ab) == decode_first_scalar(a));
        assert(length_of_first_scalar(ab) == w);
        assert(pop_first_scalar(ab) =~= pop_first_scalar(a) + b);
        lemma_decode_concat(pop_first_scalar(a), b);
        assert(decode_utf8(ab) =~= decode_utf8(a) + decode_utf8(b));
    }
}

proof fn lemma_flatten_first(reads: Seq<Seq<u8>>)
    requires
        reads.len() > 0,
    ensures
        reads.flatten() == reads[0] + reads.drop_first().flatten(),
{
}

proof fn lemma_run_text_valid(carry: Seq<u8>, reads: Seq<Seq<u8>>)
    requires
        valid_utf8(carry + reads.flatten()),
        forall|i: int| 0 <= i < reads.len() ==> #[trigger] reads[i].len() > 0,
        carry.len() == 0 || carry.len() < length_of_first_scalar(carry + reads.flatten()),
    ensures
        run_text(carry, reads) == decode_utf8(carry + reads.flatten()),
    decreases reads.len(),
{
    let u = carry + reads.flatten();
    if reads.len() == 0 {
        assert(u =~= carry);
        if carry.len() > 0 {
            assert(valid_first_scalar(carry));
        }
        assert(decode_utf8(u) =~= Seq::<char>::empty());
    } else {
        let buf = carry + reads[0];
        let rest = reads.drop_first();
        assert(reads[0].len() > 0);
        lemma_flatten_first(reads);
        assert(u =~= buf + rest.flatten());
        let m = buf.len() as int;
        assert(u.subrange(0, m) =~= buf);
        lemma_cut_of_valid_prefix(u, m);
        let e = match cut_of(buf) {
            Some((e, _k)) => e,
            None => 0,
        };
        let kept = buf.subrange(e, m);
        assert(scan_carry(buf) == kept);
        assert(scan_text(buf) == decode_utf8(u.subrange(0, e))) by {
            assert(buf.subrange(0, e) =~= u.subrange(0, e));
        }
        assert(kept + rest.flatten() =~= u.subrange(e, u.len() as int));
        assert forall|i: int| 0 <= i < rest.len() implies #[trigger] rest[i].len() > 0 by {
            assert(rest[i] == reads[i + 1]);
        }
        lemma_run_text_valid(kept, rest);
        assert(u =~= u.subrange(0, e) + u.subrange(e, u.len() as int));
        lemma_decode_concat(u.subrange(0, e), u.subrange(e, u.len() as int));
    }
}

/// For a stream that is valid UTF-8, the text handed out is exactly the text
/// the stream encodes, however the stream is split into a window and reads.
pub proof fn lemma_stream_text_is_decoding(window: Seq<u8>, reads: Seq<Seq<u8>>)
    requires
        valid_utf8(window + reads.flatten()),
        forall|i: int| 0 <= i < reads.len() ==> #[trigger] reads[i].len() > 0,
    ensures
        stream_text(window, reads) == decode_utf8(window + reads.flatten()),
{
    if window.len() == 0 {
        assert(cut_of(window) == Some((0int, 0int)));
        assert(window.subrange(0, 0) =~= Seq::<u8>::empty());
        assert(scan_text(window) =~= Seq::<char>::empty());
        assert(scan_carry(window) =~= Seq::<u8>::empty());
        assert(window + reads.flatten() =~= Seq::<u8>::empty() + reads.flatten());
        lemma_run_text_valid(Seq::<u8>::empty(), reads);
        assert(stream_text(window, reads) =~= run_text(Seq::<u8>::empty(), reads));
    } else {
        let all = seq![window].add(reads);
        assert(all.drop_first() =~= reads);
        assert(all[0] == window);
        assert(all.flatten() == window + reads.flatten());
        assert forall|i: int| 0 <= i < all.len() implies #[trigger] all[i].len() > 0 by {
            if i > 0 {
                assert(all[i] == reads[i - 1]);
            }
        }
        assert(Seq::<u8>::empty() + all.flatten() =~= window + reads.flatten());
        lemma_run_text_valid(Seq::<u8>::empty(), all);
        assert(Seq::<u8>::empty() + window =~= window);
    }
}

/// Chunking does not change the output: two splittings of the same valid
/// UTF-8 stream into a window and non-empty reads render the same text.
pub proof fn lemma_chunking_invariant(
    w1: Seq<u8>,
    reads1: Seq<Seq<u8>>,
    w2: Seq<u8>,
    reads2: Seq<Seq<u8>>,
)
    requires
        w1 + reads1.flatten() == w2 + reads2.flatten(),
        valid_utf8(w1 + reads1.flatten()),
        forall|i: int| 0 <= i < reads1.len() ==> #[trigger] reads1[i].len() > 0,
        forall|i: int| 0 <= i < reads2.len() ==> #[trigger] reads2[i].len() > 0,
    ensures
        stream_text(w1, reads1) == stream_text(w2, reads2),
{
    lemma_stream_text_is_decoding(w1, reads1);
    lemma_stream_text_is_decoding(w2, reads2);
}

/// The abstract state of a renderer: its carry tail, and whether it still
/// takes bytes.
pub struct RenderState {
    pub carry: Seq<u8>,
    pub open: bool,
}

/// Renders one stream; see the module documentation for the protocol.
pub struct StreamRenderer {
    carry: Vec<u8>,
    open: bool,
}

impl View for StreamRenderer {
    type V = RenderState;

    closed spec fn view(&self) -> RenderState {
        RenderState { carry: self.carry@, open: self.open }
    }
}

fn concat_bytes(a: &[u8], b: &[u8]) -> (r: Vec<u8>)
    ensures
        r@ == a@ + b@,
{
    let mut r: Vec<u8> = Vec::new();
    let mut i: usize = 0;
    while i < a.len()
        invariant
            i <= a@.len(),
            r@ == a@.subrange(0, i as int),
        decreases a@.len() - i,
    {
        r.push(a[i]);
        i = i + 1;
        assert(r@ =~= a@.subrange(0, i as int));
    }
    let mut i: usize = 0;
    while i < b.len()
        invariant
            i <= b@.len(),
            r@ == a@ + b@.subrange(0, i as int),
        decreases b@.len() - i,
    {
        r.push(b[i]);
        i = i + 1;
        assert(r@ =~= a@ + b@.subrange(0, i as int));
    }
    assert(b@.subrange(0, b@.len() as int) =~= b@);
    r
}

impl StreamRenderer {
    /// Cuts the filled buffer, hands out the text before the cut and keeps
    /// the carry tail.
    fn scan(&mut self, buf: &[u8]) -> (r: Step)
        ensures
            final(self)@.open == (cut_of(buf@) is Some),
            final(self)@.carry == scan_carry(buf@),
            final(self)@.carry.len() <= 3,
            r.text@ == scan_text(buf@),
            r.next == (if cut_of(buf@) is Some {
                Next::Read((BUFFER_SIZE - final(self)@.carry.len()) as usize)
            } else {
                Next::Stop
            }),
    {
        match cut_point(buf) {
            None => {
                self.carry = Vec::new();
                self.open = false;
                Step { text: String::new(), next: Next::Stop }
            },
            Some((e, k)) => {
                let text = decode_fragment(&buf[0..e]);
                self.carry = vstd::slice::slice_to_vec(&buf[k..buf.len()]);
                self.open = true;
                Step { text, next: Next::Read(BUFFER_SIZE - self.carry.len()) }
            },
        }
    }

    /// Starts rendering a stream of the given category from its leading
    /// window. A binary category gives the notice and stops at once;
    /// otherwise the window is the first filled buffer.
    pub fn begin_classified(category: ContentCategory, window: &[u8]) -> (r: (
        StreamRenderer,
        Step,
    ))
        ensures
            !is_rendered(category) ==> {
                &&& r.1.text@ == notice_text()
                &&& r.1.next == Next::Stop
                &&& !r.0@.open
            },
            is_rendered(category) ==> {
                &&& r.0@.open == (cut_of(window@) is Some)
                &&& r.0@.carry == scan_carry(window@)
                &&& r.0@.carry.len() <= 3
                &&& r.1.text@ == scan_text(window@)
                &&& r.1.next == (if cut_of(window@) is Some {
                    Next::Read((BUFFER_SIZE - r.0@.carry.len()) as usize)
                } else {
                    Next::Stop
                })
            },
    {
        let mut renderer = StreamRenderer { carry: Vec::new(), open: false };
        if category == ContentCategory::NonPreviewable {
            let notice = "Preview not available in console.";
            (renderer, Step { text: notice.to_owned(), next: Next::Stop })
        } else {
            let step = renderer.scan(window);
            (renderer, step)
        }
    }

    /// Starts rendering a stream from its leading window: sniffs the window
    /// and goes on as [`StreamRenderer::begin_classified`] does with that
    /// category.
    pub fn begin(window: &[u8]) -> (r: (StreamRenderer, Step))
        ensures
            !is_rendered(classify_spec(window@)) ==> {
                &&& r.1.text@ == notice_text()
                &&& r.1.next == Next::Stop
                &&& !r.0@.open
            },
            is_rendered(classify_spec(window@)) || window@.len() == 0 ==> {
                &&& r.0@.open == (cut_of(window@) is Some)
                &&& r.0@.carry == scan_carry(window@)
                &&& r.1.text@ == scan_text(window@)
                &&& r.1.next == (if cut_of(window@) is Some {
                    Next::Read((BUFFER_SIZE - r.0@.carry.len()) as usize)
                } else {
                    Next::Stop
                })
            },
    {
        let category = classify(window);
        StreamRenderer::begin_classified(category, window)
    }

    /// Takes the bytes of the next read. An empty read ends the stream: any
    /// carry tail is a truncated character and is dropped. Otherwise the
    /// bytes are appended to the carry tail and the buffer is cut.
    pub fn feed(&mut self, bytes: &[u8]) -> (r: Step)
        ensures
            !old(self)@.open || bytes@.len() == 0 ==> {
                &&& r.text@ == Seq::<char>::empty()
                &&& r.next == Next::Stop
                &&& !final(self)@.open
                &&& final(self)@.carry == Seq::<u8>::empty()
            },
            old(self)@.open && bytes@.len() > 0 ==> {
                let buf = old(self)@.carry + bytes@;
                &&& final(self)@.open == (cut_of(buf) is Some)
                &&& final(self)@.carry == scan_carry(buf)
                &&& final(self)@.carry.len() <= 3
                &&& r.text@ == scan_text(buf)
                &&& r.next == (if cut_of(buf) is Some {
                    Next::Read((BUFFER_SIZE - final(self)@.carry.len()) as usize)
                } else {
                    Next::Stop
                })
            },
    {
        if !self.open || bytes.len() == 0 {
            self.carry = Vec::new();
            self.open = false;
            return Step { text: String::new(), next: Next::Stop };
        }
        let buf = concat_bytes(self.carry.as_slice(), bytes);
        self.scan(buf.as_slice())
    }
}

} // verus!

//! Where a filled buffer can be cut so that everything before the cut is made
//! of whole characters.
use vstd::prelude::*;
use vstd::utf8::*;

verus! {

/// A byte that starts a character: ASCII, or the lead byte of a 2-, 3- or
/// 4-byte sequence.
pub open spec fn is_lead(b: u8) -> bool {
    is_leading_byte_width_1(b) || is_leading_byte_width_2(b) || is_leading_byte_width_3(b)
        || is_leading_byte_width_4(b)
}

/// How many bytes the sequence started by the lead byte `b` spans.
pub open spec fn lead_width(b: u8) -> int {
    if is_leading_byte_width_1(b) {
        1
    } else if is_leading_byte_width_2(b) {
        2
    } else if is_leading_byte_width_3(b) {
        3
    } else {
        4
    }
}

/// Index of the last lead byte of `buf`, or -1 when `buf` holds none.
pub open spec fn last_lead(buf: Seq<u8>) -> int
    decreases buf.len(),
{
    if buf.len() == 0 {
        -1
    } else if is_lead(buf.last()) {
        buf.len() - 1
    } else {
        last_lead(buf.drop_last())
    }
}

/// How a filled buffer is cut: `None` when it holds no lead byte at all, else
/// `Some((end, keep))`, where `buf[0..end]` is handed out, `buf[keep..]` is the
/// carry tail held back for the next read, and `buf[end..keep]` is dropped.
///
/// The last lead byte decides. When the sequence it starts is whole, the cut
/// falls right after that sequence and nothing is carried; any stray bytes
/// behind it are dropped. When the sequence is cut short by the end of the
/// buffer, the cut falls before its lead byte, and the lead byte with what
/// follows it is carried.
pub open spec fn cut_of(buf: Seq<u8>) -> Option<(int, int)> {
    if buf.len() == 0 {
        Some((0, 0))
    } else {
        let j = last_lead(buf);
        if j < 0 {
            None
        } else if j + lead_width(buf[j]) <= buf.len() {
            Some((j + lead_width(buf[j]), buf.len() as int))
        } else {
            Some((j, j))
        }
    }
}

/// True when `b` starts a character.
pub fn is_lead_byte(b: u8) -> (r: bool)
    ensures
        r == is_lead(b),
{
    b <= 0xf7 && !(0x80 <= b && b <= 0xbf)
}

/// The width of the sequence that the lead byte `b` starts.
pub fn lead_byte_width(b: u8) -> (r: usize)
    requires
        is_lead(b),
    ensures
        r == lead_width(b),
        1 <= r <= 4,
{
    if b <= 0x7f {
        1
    } else if b <= 0xdf {
        2
    } else if b <= 0xef {
        3
    } else {
        4
    }
}

/// The last lead byte is a lead byte inside the buffer, and no byte after it
/// starts a character.
pub proof fn lemma_last_lead_facts(buf: Seq<u8>)
    ensures
        -1 <= last_lead(buf) < buf.len(),
        last_lead(buf) >= 0 ==> is_lead(buf[last_lead(buf)]),
        forall|i: int| last_lead(buf) < i < buf.len() ==> !is_lead(#[trigger] buf[i]),
    decreases buf.len(),
{
    if buf.len() > 0 && !is_lead(buf.last()) {
        lemma_last_lead_facts(buf.drop_last());
        assert forall|i: int| last_lead(buf) < i < buf.len() implies !is_lead(#[trigger] buf[i]) by {
            if i < buf.len() - 1 {
                assert(buf[i] == buf.drop_last()[i]);
            }
        }
    }
}

proof fn lemma_last_lead_single(s: Seq<u8>)
    requires
        s.len() > 0,
        is_lead(s[0]),
        forall|i: int| 0 < i < s.len() ==> !is_lead(#[trigger] s[i]),
    ensures
        last_lead(s) == 0,
    decreases s.len(),
{
    if s.len() > 1 {
        let t = s.drop_last();
        assert forall|i: int| 0 < i < t.len() implies !is_lead(#[trigger] t[i]) by {
            assert(t[i] == s[i]);
        }
        lemma_last_lead_single(t);
    }
}

proof fn lemma_last_lead_append(a: Seq<u8>, b: Seq<u8>)
    requires
        last_lead(b) >= 0,
    ensures
        last_lead(a + b) == a.len() + last_lead(b),
    decreases b.len(),
{
    let ab = a + b;
    if b.len() > 0 {
        assert(ab.last() == b.last());
        if !is_lead(b.last()) {
            assert(ab.drop_last() =~= a + b.drop_last());
            lemma_last_lead_append(a, b.drop_last());
        }
    }
}

/// In valid UTF-8, the last lead byte among the first `m` bytes starts the
/// character that the first `m` bytes end in: whole characters come before
/// it, and its character reaches at least to `m`.
pub proof fn lemma_last_lead_in_valid(u: Seq<u8>, m: int)
    requires
        valid_utf8(u),
        0 < m <= u.len(),
    ensures
        ({
            let j = last_lead(u.subrange(0, m));
            &&& 0 <= j < m
            &&& valid_utf8(u.subrange(0, j))
            &&& valid_utf8(u.subrange(j, u.len() as int))
            &&& lead_width(u[j]) == length_of_first_scalar(u.subrange(j, u.len() as int))
            &&& m <= j + lead_width(u[j])
        }),
    decreases u.len(),
{
    let w0 = length_of_first_scalar(u);
    assert(valid_first_scalar(u));
    assert(1 <= w0 <= u.len());
    if m <= w0 {
        let s = u.subrange(0, m);
        assert forall|i: int| 0 < i < s.len() implies !is_lead(#[trigger] s[i]) by {
            assert(s[i] == u[i]);
        }
        lemma_last_lead_single(s);
        assert(u.subrange(0, 0) =~= Seq::<u8>::empty());
        assert(u.subrange(0, u.len() as int) =~= u);
    } else {
        let t = pop_first_scalar(u);
        assert(t.len() == u.len() - w0);
        lemma_last_lead_in_valid(t, m - w0);
        let j2 = last_lead(t.subrange(0, m - w0));
        let head = u.subrange(0, w0);
        assert(u.subrange(0, m) =~= head + t.subrange(0, m - w0));
        lemma_last_lead_append(head, t.subrange(0, m - w0));
        let j = w0 + j2;
        assert(valid_utf8(head)) by {
            reveal_with_fuel(valid_utf8, 2);
            assert(pop_first_scalar(head) =~= Seq::<u8>::empty());
        }
        assert(u.subrange(0, j) =~= head + t.subrange(0, j2));
        valid_utf8_concat(head, t.subrange(0, j2));
        assert(u.subrange(j, u.len() as int) =~= t.subrange(j2, t.len() as int));
        assert(u[j] == t[j2]);
    }
}

/// Cutting a prefix of valid UTF-8: either the whole prefix is handed out and
/// ends on a character boundary, or the cut falls on the boundary before the
/// last, unfinished character, which is carried.
pub proof fn lemma_cut_of_valid_prefix(u: Seq<u8>, m: int)
    requires
        valid_utf8(u),
        0 < m <= u.len(),
    ensures
        cut_of(u.subrange(0, m)) matches Some((e, k)) && e == k && 0 <= e <= m && valid_utf8(
            u.subrange(0, e),
        ) && valid_utf8(u.subrange(e, u.len() as int)) && (e == m || m - e < length_of_first_scalar(
            u.subrange(e, u.len() as int),
        )),
{
    let buf = u.subrange(0, m);
    lemma_last_lead_in_valid(u, m);
    lemma_last_lead_facts(buf);
    let j = last_lead(buf);
    let w = lead_width(buf[j]);
    let tail = u.subrange(j, u.len() as int);
    assert(buf[j] == u[j]);
    if j + w <= m {
        assert(valid_first_scalar(tail));
        let after = pop_first_scalar(tail);
        assert(valid_utf8(after));
        if j + w < m {
            assert(valid_first_scalar(after));
            assert(after[0] == buf[j + w]);
        }
        assert(after =~= u.subrange(m, u.len() as int));
        assert(valid_utf8(take_first_scalar(tail))) by {
            reveal_with_fuel(valid_utf8, 2);
            assert(pop_first_scalar(take_first_scalar(tail)) =~= Seq::<u8>::empty());
        }
        assert(u.subrange(0, j) + take_first_scalar(tail) =~= u.subrange(0, m));
        valid_utf8_concat(u.subrange(0, j), take_first_scalar(tail));
    }
}

/// Every byte of a non-empty buffer that is cut is accounted for: the bytes
/// before `end` are handed out, the bytes from `keep` on are carried, and the
/// bytes between are strays that start no character. When something is
/// carried, it is one unfinished sequence from its lead byte on; when nothing
/// is, the handed-out part ends right after the whole sequence of the last
/// lead byte. So no character is ever split between two fragments.
pub proof fn lemma_cut_keeps_characters_whole(buf: Seq<u8>)
    requires
        buf.len() > 0,
        cut_of(buf) is Some,
    ensures
        cut_of(buf) matches Some((e, k)) && {
            &&& 0 <= e <= k <= buf.len()
            &&& buf.len() - k <= 3
            &&& forall|i: int| e <= i < k ==> !is_lead(#[trigger] buf[i])
            &&& k < buf.len() ==> e == k && is_lead(buf[k]) && buf.len() - k < lead_width(buf[k])
            &&& k == buf.len() ==> e == last_lead(buf) + lead_width(buf[last_lead(buf)])
        },
{
    lemma_last_lead_facts(buf);
}

/// Scans `buf` backwards for its last lead byte.
pub fn find_last_lead(buf: &[u8]) -> (r: Option<usize>)
    ensures
        match r {
            Some(j) => last_lead(buf@) == j as int,
            None => last_lead(buf@) == -1,
        },
{
    let mut i: usize = buf.len();
    assert(buf@.subrange(0, i as int) =~= buf@);
    while i > 0
        invariant
            i <= buf@.len(),
            last_lead(buf@) == last_lead(buf@.subrange(0, i as int)),
        decreases i,
    {
        let b = buf[i - 1];
        if is_lead_byte(b) {
            return Some(i - 1);
        }
        assert(buf@.subrange(0, i as int).drop_last() =~= buf@.subrange(0, i - 1));
        i = i - 1;
    }
    None
}

/// Where to cut `buf`: see [`cut_of`].
pub fn cut_point(buf: &[u8]) -> (r: Option<(usize, usize)>)
    ensures
        match r {
            Some((e, k)) => cut_of(buf@) == Some((e as int, k as int)),
            None => cut_of(buf@) is None,
        },
        r matches Some((e, k)) ==> e <= k <= buf@.len() && buf@.len() - k <= 3,
{
    if buf.len() == 0 {
        return Some((0, 0));
    }
    match find_last_lead(buf) {
        None => None,
        Some(j) => {
            proof {
                lemma_last_lead_facts(buf@);
            }
            let w = lead_byte_width(buf[j]);
            if w <= buf.len() - j {
                Some((j + w, buf.len()))
            } else {
                Some((j, j))
            }
        },
    }
}

} // verus!

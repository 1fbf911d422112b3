//! Byte-level text primitives for the match engine: counting character
//! starts inside a UTF-8 byte sequence, substring search, and the greedy
//! enumeration of non-overlapping occurrences.
use vstd::prelude::*;

verus! {

broadcast use vstd::seq::group_seq_axioms;

use vstd::utf8::{encode_utf8, is_continuation_byte, encode_scalar};

/// Number of characters encoded in the first `end` bytes of `bytes`:
/// the count of non-continuation bytes among them. Indices past the end
/// of the sequence contribute nothing, so the function is total in `end`.
pub open spec fn chars_before(bytes: Seq<u8>, end: int) -> int
    decreases end,
{
    if end <= 0 {
        0
    } else {
        chars_before(bytes, end - 1) + if end - 1 < bytes.len() && !is_continuation_byte(
            bytes[end - 1],
        ) {
            1int
        } else {
            0int
        }
    }
}

pub proof fn lemma_chars_before_mono(bytes: Seq<u8>, i: int, j: int)
    requires
        i <= j,
    ensures
        chars_before(bytes, i) <= chars_before(bytes, j),
    decreases j - i,
{
    if i < j {
        lemma_chars_before_mono(bytes, i, j - 1);
    }
}

pub proof fn lemma_chars_before_clip(bytes: Seq<u8>, end: int)
    requires
        end >= bytes.len(),
    ensures
        chars_before(bytes, end) == chars_before(bytes, bytes.len() as int),
    decreases end,
{
    if end > bytes.len() {
        lemma_chars_before_clip(bytes, end - 1);
    }
}

/// Counting one more byte that starts a character raises the count by one.
pub proof fn lemma_chars_before_step(bytes: Seq<u8>, i: int)
    requires
        0 <= i < bytes.len(),
        !is_continuation_byte(bytes[i]),
    ensures
        chars_before(bytes, i + 1) == chars_before(bytes, i) + 1,
{
}

proof fn lemma_chars_before_agree(a: Seq<u8>, b: Seq<u8>, end: int)
    requires
        end <= a.len(),
        end <= b.len(),
        forall|i: int| 0 <= i < end ==> a[i] == b[i],
    ensures
        chars_before(a, end) == chars_before(b, end),
    decreases end,
{
    if end > 0 {
        lemma_chars_before_agree(a, b, end - 1);
    }
}

proof fn lemma_chars_before_concat(a: Seq<u8>, b: Seq<u8>, k: int)
    requires
        0 <= k <= b.len(),
    ensures
        chars_before(a + b, a.len() + k) == chars_before(a + b, a.len() as int) + chars_before(
            b,
            k,
        ),
    decreases k,
{
    if k > 0 {
        lemma_chars_before_concat(a, b, k - 1);
        assert((a + b)[a.len() + k - 1] == b[k - 1]);
    }
}

/// Over a valid encoding, the count of character-start bytes in the whole
/// sequence equals the number of characters encoded.
pub proof fn lemma_chars_before_total(s: Seq<char>)
    ensures
        chars_before(encode_utf8(s), encode_utf8(s).len() as int) == s.len(),
    decreases s.len(),
{
    if s.len() == 0 {
    } else {
        let head = encode_scalar(s[0] as u32);
        let rest = encode_utf8(s.drop_first());
        assert(encode_utf8(s) == head + rest);
        lemma_encode_scalar_shape(s[0]);
        lemma_chars_before_total(s.drop_first());
        lemma_chars_before_concat(head, rest, rest.len() as int);
        assert(chars_before(head + rest, head.len() as int) == 1) by {
            lemma_chars_before_head(head, rest);
        }
    }
}

/// The encoding of one character is one leading byte followed by
/// continuation bytes.
proof fn lemma_encode_scalar_shape(c: char)
    ensures
        1 <= encode_scalar(c as u32).len() <= 4,
        !is_continuation_byte(encode_scalar(c as u32)[0]),
        forall|j: int|
            1 <= j < encode_scalar(c as u32).len() ==> is_continuation_byte(
                #[trigger] encode_scalar(c as u32)[j],
            ),
{
    broadcast use vstd::utf8::char_is_scalar;

    let v = c as u32;
    lemma_utf8_byte_forms(v);
}

/// Bit-level ranges of the bytes that `encode_scalar` assembles.
proof fn lemma_utf8_byte_forms(v: u32)
    by (bit_vector)
    ensures
        (v & 0x7f) as u8 <= 0x7f,
        (0xC0 | ((v >> 6) & 0x1F) as u8) >= 0xc0,
        (0xE0 | ((v >> 12) & 0x0F) as u8) >= 0xc0,
        (0xF0 | ((v >> 18) & 0x7) as u8) >= 0xc0,
        0x80 <= (0x80 | (v & 0x3F) as u8) <= 0xbf,
        0x80 <= (0x80 | ((v >> 6) & 0x3F) as u8) <= 0xbf,
        0x80 <= (0x80 | ((v >> 12) & 0x3F) as u8) <= 0xbf,
{
}

proof fn lemma_chars_before_head(head: Seq<u8>, rest: Seq<u8>)
    requires
        head.len() >= 1,
        !is_continuation_byte(head[0]),
        forall|j: int| 1 <= j < head.len() ==> is_continuation_byte(#[trigger] head[j]),
    ensures
        chars_before(head + rest, head.len() as int) == 1,
    decreases head.len(),
{
    lemma_chars_before_agree(head + rest, head, head.len() as int);
    lemma_chars_before_one(head, head.len() as int);
}

proof fn lemma_chars_before_one(head: Seq<u8>, end: int)
    requires
        head.len() >= 1,
        !is_continuation_byte(head[0]),
        forall|j: int| 1 <= j < head.len() ==> is_continuation_byte(#[trigger] head[j]),
        1 <= end <= head.len(),
    ensures
        chars_before(head, end) == 1,
    decreases end,
{
    if end > 1 {
        lemma_chars_before_one(head, end - 1);
        assert(is_continuation_byte(head[end - 1]));
    } else {
        assert(!is_continuation_byte(head[0]));
        assert(chars_before(head, 1) == chars_before(head, 0) + 1);
    }
}

/// A nonempty character sequence has a nonempty encoding, whose first byte
/// starts a character.
pub proof fn lemma_encode_nonempty(s: Seq<char>)
    requires
        s.len() > 0,
    ensures
        encode_utf8(s).len() >= s.len() >= 1,
        !is_continuation_byte(encode_utf8(s)[0]),
    decreases s.len(),
{
    let head = encode_scalar(s[0] as u32);
    let rest = encode_utf8(s.drop_first());
    assert(encode_utf8(s) == head + rest);
    lemma_encode_scalar_shape(s[0]);
    if s.len() > 1 {
        lemma_encode_nonempty(s.drop_first());
    }
}

/// Counts the character-start bytes among the first `end` bytes of `b`,
/// for any `end` (positions past the end of the slice count for nothing).
pub fn chars_before_exec(b: &[u8], end: usize) -> (r: usize)
    ensures
        r == chars_before(b@, end as int),
{
    let n = b.len();
    let stop = if end < n {
        end
    } else {
        proof {
            lemma_chars_before_clip(b@, end as int);
        }
        n
    };
    let mut i: usize = 0;
    let mut count: usize = 0;
    while i < stop
        invariant
            0 <= i <= stop <= b@.len(),
            count == chars_before(b@, i as int),
            count <= i,
        decreases stop - i,
    {
        let byte = b[i];
        if !(0x80 <= byte && byte <= 0xbf) {
            count = count + 1;
        }
        i = i + 1;
    }
    proof {
        lemma_chars_before_mono(b@, stop as int, end as int);
        if (stop as int) < end as int {
            lemma_chars_before_clip(b@, end as int);
        }
    }
    count
}

/// The needle occurs in `scan` at byte position `i`.
pub open spec fn is_match_at(scan: Seq<u8>, needle: Seq<u8>, i: int) -> bool {
    &&& 0 <= i
    &&& i + needle.len() <= scan.len()
    &&& scan.subrange(i, i + needle.len()) == needle
}

/// Byte positions of the non-overlapping occurrences of `needle` in `scan`,
/// scanning left to right from `from` and resuming after the end of each
/// occurrence found.
pub open spec fn match_positions(scan: Seq<u8>, needle: Seq<u8>, from: int) -> Seq<int>
    decreases scan.len() - from,
    when needle.len() >= 1 && from >= 0
{
    if from + needle.len() > scan.len() {
        seq![]
    } else if is_match_at(scan, needle, from) {
        seq![from] + match_positions(scan, needle, from + needle.len())
    } else {
        match_positions(scan, needle, from + 1)
    }
}

pub proof fn lemma_positions_skip(scan: Seq<u8>, needle: Seq<u8>, from: int, to: int)
    requires
        needle.len() >= 1,
        0 <= from <= to,
        forall|j: int| from <= j < to ==> !is_match_at(scan, needle, j),
    ensures
        match_positions(scan, needle, from) == match_positions(scan, needle, to),
    decreases to - from,
{
    if from < to {
        lemma_positions_skip(scan, needle, from + 1, to);
    }
}

pub proof fn lemma_positions_empty(scan: Seq<u8>, needle: Seq<u8>, from: int)
    requires
        needle.len() >= 1,
        from >= 0,
        forall|j: int| from <= j ==> !is_match_at(scan, needle, j),
    ensures
        match_positions(scan, needle, from) == Seq::<int>::empty(),
    decreases scan.len() - from,
{
    if from + needle.len() <= scan.len() {
        lemma_positions_empty(scan, needle, from + 1);
    }
}

/// Every recorded position is an occurrence, and successive positions are
/// at least a needle's length apart.
pub proof fn lemma_positions_sound(scan: Seq<u8>, needle: Seq<u8>, from: int)
    requires
        needle.len() >= 1,
        from >= 0,
    ensures
        forall|k: int|
            0 <= k < match_positions(scan, needle, from).len() ==> is_match_at(
                scan,
                needle,
                #[trigger] match_positions(scan, needle, from)[k],
            ) && match_positions(scan, needle, from)[k] >= from,
        forall|k: int|
            0 <= k && k + 1 < match_positions(scan, needle, from).len()
                ==> #[trigger] match_positions(scan, needle, from)[k] + needle.len()
                <= match_positions(scan, needle, from)[k + 1],
    decreases scan.len() - from,
{
    if from + needle.len() > scan.len() {
        assert(match_positions(scan, needle, from).len() == 0);
    } else if is_match_at(scan, needle, from) {
        lemma_positions_sound(scan, needle, from + needle.len());
        let tail = match_positions(scan, needle, from + needle.len());
        assert(match_positions(scan, needle, from) == seq![from] + tail);
        vstd::seq::axiom_seq_add_len(seq![from], tail);
        assert forall|k: int|
            0 <= k < match_positions(scan, needle, from).len() implies is_match_at(
            scan,
            needle,
            #[trigger] match_positions(scan, needle, from)[k],
        ) && match_positions(scan, needle, from)[k] >= from by {
            if k > 0 {
                vstd::seq::axiom_seq_add_index2(seq![from], tail, k);
                assert(match_positions(scan, needle, from)[k] == tail[k - 1]);
            } else {
                vstd::seq::axiom_seq_add_index1(seq![from], tail, 0);
            }
        }
        assert forall|k: int|
            0 <= k && k + 1 < match_positions(scan, needle, from).len()
                implies #[trigger] match_positions(scan, needle, from)[k] + needle.len()
            <= match_positions(scan, needle, from)[k + 1] by {
            vstd::seq::axiom_seq_add_index2(seq![from], tail, k + 1);
            assert(match_positions(scan, needle, from)[k + 1] == tail[k]);
            if k > 0 {
                vstd::seq::axiom_seq_add_index2(seq![from], tail, k);
                assert(match_positions(scan, needle, from)[k] == tail[k - 1]);
            } else {
                vstd::seq::axiom_seq_add_index1(seq![from], tail, 0);
            }
        }
    } else {
        lemma_positions_sound(scan, needle, from + 1);
        assert(match_positions(scan, needle, from) == match_positions(scan, needle, from + 1));
        assert forall|k: int|
            0 <= k < match_positions(scan, needle, from).len() implies is_match_at(
            scan,
            needle,
            #[trigger] match_positions(scan, needle, from)[k],
        ) && match_positions(scan, needle, from)[k] >= from by {
            assert(match_positions(scan, needle, from)[k] == match_positions(
                scan,
                needle,
                from + 1,
            )[k]);
        }
        assert forall|k: int|
            0 <= k && k + 1 < match_positions(scan, needle, from).len()
                implies #[trigger] match_positions(scan, needle, from)[k] + needle.len()
            <= match_positions(scan, needle, from)[k + 1] by {
            assert(match_positions(scan, needle, from)[k] == match_positions(
                scan,
                needle,
                from + 1,
            )[k]);
            assert(match_positions(scan, needle, from)[k + 1] == match_positions(
                scan,
                needle,
                from + 1,
            )[k + 1]);
        }
    }
}

/// First occurrence of `needle` in `scan` at byte position `from` or later,
/// or nothing when there is none.
pub fn find_from(scan: &[u8], needle: &[u8], from: usize) -> (r: Option<usize>)
    requires
        needle@.len() >= 1,
    ensures
        match r {
            Some(i) => from <= i && is_match_at(scan@, needle@, i as int) && forall|j: int|
                from <= j < i ==> !is_match_at(scan@, needle@, j),
            None => forall|j: int| from <= j ==> !is_match_at(scan@, needle@, j),
        },
{
    let n = scan.len();
    let m = needle.len();
    if m > n {
        return None;
    }
    let mut i = from;
    while i <= n - m
        invariant
            m >= 1,
            m <= n == scan@.len(),
            m == needle@.len(),
            i >= from,
            forall|j: int| from <= j < i ==> !is_match_at(scan@, needle@, j),
        decreases n - i,
    {
        let mut j: usize = 0;
        let mut eq = true;
        while j < m
            invariant
                m >= 1,
                m <= n == scan@.len(),
                m == needle@.len(),
                i + m <= n,
                j <= m,
                eq ==> forall|t: int| 0 <= t < j ==> scan@[i + t] == needle@[t],
                !eq ==> !is_match_at(scan@, needle@, i as int),
            decreases m - j,
        {
            if eq && scan[i + j] != needle[j] {
                proof {
                    assert(scan@.subrange(i as int, i + m)[j as int] == scan@[i + j]);
                }
                eq = false;
            }
            j = j + 1;
        }
        if eq {
            proof {
                assert(scan@.subrange(i as int, i + m) =~= needle@);
            }
            return Some(i);
        }
        i = i + 1;
    }
    proof {
        assert forall|j: int| from <= j implies !is_match_at(scan@, needle@, j) by {
            if j < i {
            } else {
                assert(j + needle@.len() > scan@.len());
            }
        }
    }
    None
}

/// All non-overlapping occurrences of `needle` in `scan`, reported as
/// character spans measured against `orig`: for each byte position the pair
/// of the character count before it in `orig` and the character count
/// before the position one needle length further.
pub fn find_all_plain(orig: &[u8], scan: &[u8], needle: &[u8]) -> (r: Vec<(usize, usize)>)
    requires
        needle@.len() >= 1,
    ensures
        r@.len() == match_positions(scan@, needle@, 0).len(),
        forall|k: int|
            0 <= k < r@.len() ==> {
                let p = match_positions(scan@, needle@, 0)[k];
                (#[trigger] r@[k]).0 == chars_before(orig@, p) && r@[k].1 == chars_before(
                    orig@,
                    p + needle@.len(),
                )
            },
{
    let mut r: Vec<(usize, usize)> = Vec::new();
    let mut from: usize = 0;
    let ghost full = match_positions(scan@, needle@, 0);
    let ghost done: Seq<int> = Seq::empty();
    loop
        invariant
            needle@.len() >= 1,
            full == match_positions(scan@, needle@, 0),
            full == done + match_positions(scan@, needle@, from as int),
            r@.len() == done.len(),
            forall|k: int|
                0 <= k < r@.len() ==> (#[trigger] r@[k]).0 == chars_before(orig@, done[k])
                    && r@[k].1 == chars_before(orig@, done[k] + needle@.len()),
        decreases scan@.len() + 1 - from,
    {
        match find_from(scan, needle, from) {
            Some(i) => {
                proof {
                    lemma_positions_skip(scan@, needle@, from as int, i as int);
                    lemma_chars_before_mono(orig@, 0, i as int);
                    lemma_chars_before_mono(orig@, i as int, i + needle@.len());
                    lemma_chars_before_clip_bound(orig@, i + needle@.len());
                }
                let n = scan.len();
                assert(i + needle@.len() <= n);
                let a = chars_before_exec(orig, i);
                let b = chars_before_exec(orig, i + needle.len());
                r.push((a, b));
                proof {
                    done = done + seq![i as int];
                }
                from = i + needle.len();
            },
            None => {
                proof {
                    lemma_positions_empty(scan@, needle@, from as int);
                    assert(full =~= done);
                }
                return r;
            },
        }
    }
}

/// The count of character starts never exceeds the byte length looked at.
pub proof fn lemma_chars_before_clip_bound(bytes: Seq<u8>, end: int)
    ensures
        chars_before(bytes, end) <= if end <= bytes.len() {
            if end >= 0 {
                end
            } else {
                0
            }
        } else {
            bytes.len() as int
        },
        chars_before(bytes, end) >= 0,
    decreases end,
{
    if end > 0 {
        lemma_chars_before_clip_bound(bytes, end - 1);
    }
}

/// The count of character starts up to any position never exceeds the
/// count over the whole sequence.
pub proof fn lemma_chars_before_le_total(bytes: Seq<u8>, x: int)
    ensures
        chars_before(bytes, x) <= chars_before(bytes, bytes.len() as int),
{
    if x <= bytes.len() {
        lemma_chars_before_mono(bytes, x, bytes.len() as int);
    } else {
        lemma_chars_before_clip(bytes, x);
    }
}

} // verus!

//! Cutting a long text into chunks of bounded UTF-8 size, preferring to
//! cut before a line break or a full stop `。` in the last 30% of a chunk.

use vstd::prelude::*;
use vstd::utf8::{
    encode_utf8, is_char_boundary, valid_utf8, decode_utf8, is_continuation_byte,
    length_of_first_scalar, pop_first_scalar,
};

verus! {

broadcast use {
    vstd::utf8::encode_utf8_valid_utf8,
    vstd::utf8::is_char_boundary_start_end_of_seq,
    vstd::utf8::encode_utf8_decode_utf8,
};

/// The largest boundary in `(start, e]`, or `start` when there is none.
pub open spec fn back_to_boundary(b: Seq<u8>, e: int, start: int) -> int
    decreases e - start,
{
    if e > start && !is_char_boundary(b, e) {
        back_to_boundary(b, e - 1, start)
    } else {
        e
    }
}

/// The smallest boundary in `[i, limit)`, or `limit` when there is none.
pub open spec fn fwd_to_boundary(b: Seq<u8>, i: int, limit: int) -> int
    decreases limit - i,
{
    if i < limit && !is_char_boundary(b, i) {
        fwd_to_boundary(b, i + 1, limit)
    } else {
        i
    }
}

/// A `\n` or a `。` (bytes E3 80 82, wholly before `end`) starts at byte `p`.
pub open spec fn is_break_at(b: Seq<u8>, p: int, end: int) -> bool {
    &&& is_char_boundary(b, p)
    &&& (b[p] == 10u8 || (p + 3 <= end && b[p] == 0xE3u8 && b[p + 1] == 0x80u8 && b[p + 2] == 0x82u8))
}

/// The last break position in `[lo, hi)` of the window ending at `end`.
pub open spec fn last_break(b: Seq<u8>, lo: int, hi: int, end: int) -> Option<int>
    decreases hi - lo,
{
    if hi <= lo {
        None
    } else if is_break_at(b, hi - 1, end) {
        Some(hi - 1)
    } else {
        last_break(b, lo, hi - 1, end)
    }
}

/// `7/10` of `n`, rounded down.
pub open spec fn seven_tenths(n: int) -> int {
    n * 7 / 10
}

/// Where the chunk that begins at byte `start` ends.
pub open spec fn chunk_end(b: Seq<u8>, start: int, target: int) -> int {
    let e0 = if start + target < b.len() { start + target } else { b.len() as int };
    let e1 = back_to_boundary(b, e0, start);
    if e1 < b.len() {
        let ss = fwd_to_boundary(b, start + seven_tenths(e1 - start), e1);
        match last_break(b, ss, e1, e1) {
            Some(p) => fwd_to_boundary(b, p, b.len() as int),
            None => e1,
        }
    } else {
        e1
    }
}

/// The chunks, as byte sequences, from byte `start` on.
pub open spec fn chunks_from(b: Seq<u8>, start: int, target: int) -> Seq<Seq<u8>>
    decreases b.len() - start,
{
    if start < 0 || start >= b.len() {
        Seq::empty()
    } else {
        let e = chunk_end(b, start, target);
        if e <= start || e > b.len() {
            Seq::empty()
        } else {
            seq![b.subrange(start, e)] + chunks_from(b, e, target)
        }
    }
}

/// The byte chunks of a text.
pub open spec fn spec_split_content(content: Seq<char>, target: int) -> Seq<Seq<u8>> {
    chunks_from(encode_utf8(content), 0, target)
}

/// The UTF-8 bytes of each string.
pub open spec fn utf8_of_all(r: Seq<String>) -> Seq<Seq<u8>> {
    r.map_values(|s: String| encode_utf8(s@))
}

/// Byte sequences one after another.
pub open spec fn concat_bytes(parts: Seq<Seq<u8>>) -> Seq<u8>
    decreases parts.len(),
{
    if parts.len() == 0 {
        Seq::empty()
    } else {
        parts[0] + concat_bytes(parts.drop_first())
    }
}

/// Texts one after another.
pub open spec fn concat_chars(parts: Seq<Seq<char>>) -> Seq<char>
    decreases parts.len(),
{
    if parts.len() == 0 {
        Seq::empty()
    } else {
        parts[0] + concat_chars(parts.drop_first())
    }
}

// ---------------------------------------------------------------------------
// Lemmas on boundaries
// ---------------------------------------------------------------------------

proof fn lemma_back_to_boundary(b: Seq<u8>, e: int, start: int)
    requires
        start <= e,
    ensures
        start <= back_to_boundary(b, e, start) <= e,
        back_to_boundary(b, e, start) == start || is_char_boundary(b, back_to_boundary(b, e, start)),
        forall|k: int| back_to_boundary(b, e, start) < k <= e ==> !is_char_boundary(b, k),
    decreases e - start,
{
    if e > start && !is_char_boundary(b, e) {
        lemma_back_to_boundary(b, e - 1, start);
    }
}

proof fn lemma_fwd_to_boundary(b: Seq<u8>, i: int, limit: int)
    requires
        i <= limit,
    ensures
        i <= fwd_to_boundary(b, i, limit) <= limit,
        fwd_to_boundary(b, i, limit) == limit || is_char_boundary(b, fwd_to_boundary(b, i, limit)),
    decreases limit - i,
{
    if i < limit && !is_char_boundary(b, i) {
        lemma_fwd_to_boundary(b, i + 1, limit);
    }
}

proof fn lemma_last_break(b: Seq<u8>, lo: int, hi: int, end: int)
    ensures
        last_break(b, lo, hi, end) matches Some(p) ==> lo <= p < hi && is_break_at(b, p, end),
    decreases hi - lo,
{
    if hi <= lo {
    } else if is_break_at(b, hi - 1, end) {
    } else {
        lemma_last_break(b, lo, hi - 1, end);
    }
}

/// The chosen end never goes back past `start` and never beyond the text.
proof fn lemma_chunk_end_bounds(b: Seq<u8>, start: int, target: int)
    requires
        0 <= start < b.len(),
        target >= 0,
        valid_utf8(b),
    ensures
        start <= chunk_end(b, start, target) <= b.len(),
        chunk_end(b, start, target) > start ==> is_char_boundary(b, chunk_end(b, start, target)),
{
    let e0 = if start + target < b.len() { start + target } else { b.len() as int };
    lemma_back_to_boundary(b, e0, start);
    let e1 = back_to_boundary(b, e0, start);
    if e1 < b.len() {
        let x = start + seven_tenths(e1 - start);
        assert(start <= x <= e1) by (nonlinear_arith)
            requires
                x == start + (e1 - start) * 7 / 10,
                start <= e1,
        ;
        lemma_fwd_to_boundary(b, x, e1);
        let ss = fwd_to_boundary(b, x, e1);
        lemma_last_break(b, ss, e1, e1);
        match last_break(b, ss, e1, e1) {
            Some(p) => {
                lemma_fwd_to_boundary(b, p, b.len() as int);
            },
            None => {},
        }
    }
}

/// Boundaries of a suffix are the boundaries of the whole text, shifted.
proof fn lemma_boundary_suffix(b: Seq<u8>, s: int, i: int)
    requires
        valid_utf8(b),
        is_char_boundary(b, s),
        0 <= s <= b.len(),
        0 <= i <= b.len() - s,
    ensures
        valid_utf8(b.subrange(s, b.len() as int)),
        is_char_boundary(b.subrange(s, b.len() as int), i) == is_char_boundary(b, s + i),
{
    let t = b.subrange(s, b.len() as int);
    vstd::utf8::valid_utf8_split(b, s);
    if i == t.len() {
        vstd::utf8::is_char_boundary_start_end_of_seq(t);
        vstd::utf8::is_char_boundary_start_end_of_seq(b);
    } else {
        vstd::utf8::is_char_boundary_iff_not_is_continuation_byte(t, i);
        vstd::utf8::is_char_boundary_iff_not_is_continuation_byte(b, s + i);
    }
}

/// Boundaries of a prefix that ends at a boundary are those of the whole text.
proof fn lemma_boundary_prefix(b: Seq<u8>, e: int, i: int)
    requires
        valid_utf8(b),
        is_char_boundary(b, e),
        0 <= e <= b.len(),
        0 <= i <= e,
    ensures
        valid_utf8(b.subrange(0, e)),
        is_char_boundary(b.subrange(0, e), i) == is_char_boundary(b, i),
{
    let t = b.subrange(0, e);
    vstd::utf8::valid_utf8_split(b, e);
    if i == e {
        vstd::utf8::is_char_boundary_start_end_of_seq(t);
    } else {
        vstd::utf8::is_char_boundary_iff_not_is_continuation_byte(t, i);
        vstd::utf8::is_char_boundary_iff_not_is_continuation_byte(b, i);
    }
}

/// After a boundary inside the text, another boundary follows within four bytes.
proof fn lemma_next_boundary(b: Seq<u8>, s: int) -> (w: int)
    requires
        valid_utf8(b),
        is_char_boundary(b, s),
        0 <= s < b.len(),
    ensures
        1 <= w <= 4,
        s + w <= b.len(),
        is_char_boundary(b, s + w),
{
    let t = b.subrange(s, b.len() as int);
    lemma_boundary_suffix(b, s, 0);
    let w = length_of_first_scalar(t);
    reveal_with_fuel(vstd::utf8::valid_utf8, 2);
    reveal_with_fuel(is_char_boundary, 2);
    assert(1 <= w <= 4);
    assert(w <= t.len());
    vstd::utf8::is_char_boundary_start_end_of_seq(pop_first_scalar(t));
    assert(is_char_boundary(t, w));
    lemma_boundary_suffix(b, s, w);
    w
}

/// With a target of at least five bytes every chunk makes progress.
proof fn lemma_chunk_progress(b: Seq<u8>, start: int, target: int)
    requires
        valid_utf8(b),
        is_char_boundary(b, start),
        0 <= start < b.len(),
        target >= 5,
    ensures
        chunk_end(b, start, target) > start,
{
    let e0 = if start + target < b.len() { start + target } else { b.len() as int };
    lemma_back_to_boundary(b, e0, start);
    let e1 = back_to_boundary(b, e0, start);
    let w1 = lemma_next_boundary(b, start);
    // the first character ends at a boundary no later than e0
    assert(start + w1 <= e0);
    assert(e1 >= start + w1);
    if e1 < b.len() {
        // e0 = start + target: two characters fit, so e1 is at least two bytes past start
        assert(e0 == start + target);
        if w1 == 1 && start + 1 < b.len() {
            let w2 = lemma_next_boundary(b, start + 1);
            assert(start + 1 + w2 <= e0);
            assert(e1 >= start + 2);
        }
        assert(e1 >= start + 2);
        let x = start + seven_tenths(e1 - start);
        assert(start + 1 <= x <= e1) by (nonlinear_arith)
            requires
                x == start + (e1 - start) * 7 / 10,
                start + 2 <= e1,
        ;
        lemma_fwd_to_boundary(b, x, e1);
        let ss = fwd_to_boundary(b, x, e1);
        lemma_last_break(b, ss, e1, e1);
        match last_break(b, ss, e1, e1) {
            Some(p) => {
                lemma_fwd_to_boundary(b, p, b.len() as int);
            },
            None => {},
        }
    }
}

proof fn lemma_concat_chunks_prefix(b: Seq<u8>, start: int, target: int)
    requires
        valid_utf8(b),
        0 <= start <= b.len(),
        is_char_boundary(b, start),
        target >= 0,
    ensures
        concat_bytes(chunks_from(b, start, target)).len() <= b.len() - start,
        b.subrange(start, b.len() as int).subrange(0, concat_bytes(chunks_from(b, start, target)).len() as int)
            == concat_bytes(chunks_from(b, start, target)),
        target >= 5 ==> concat_bytes(chunks_from(b, start, target)) == b.subrange(start, b.len() as int),
    decreases b.len() - start,
{
    if start >= b.len() {
        assert(b.subrange(start, b.len() as int) =~= Seq::<u8>::empty());
    } else {
        lemma_chunk_end_bounds(b, start, target);
        if target >= 5 {
            lemma_chunk_progress(b, start, target);
        }
        let e = chunk_end(b, start, target);
        if e <= start || e > b.len() {
            assert(chunks_from(b, start, target) =~= Seq::<Seq<u8>>::empty());
            assert(b.subrange(start, b.len() as int).subrange(0, 0) =~= Seq::<u8>::empty());
        } else {
            lemma_concat_chunks_prefix(b, e, target);
            let rest = chunks_from(b, e, target);
            let cs = chunks_from(b, start, target);
            assert(cs.drop_first() =~= rest);
            let cr = concat_bytes(rest);
            assert(concat_bytes(cs) == b.subrange(start, e) + cr);
            assert(b.subrange(start, b.len() as int).subrange(0, (e - start) + cr.len())
                =~= b.subrange(start, e) + b.subrange(e, b.len() as int).subrange(0, cr.len() as int));
        }
    }
}

proof fn lemma_utf8_of_concat(parts: Seq<Seq<char>>)
    ensures
        encode_utf8(concat_chars(parts)) == concat_bytes(parts.map_values(|s: Seq<char>| encode_utf8(s))),
    decreases parts.len(),
{
    if parts.len() > 0 {
        lemma_utf8_of_concat(parts.drop_first());
        lemma_encode_utf8_add(parts[0], concat_chars(parts.drop_first()));
        assert(parts.map_values(|s: Seq<char>| encode_utf8(s)).drop_first()
            =~= parts.drop_first().map_values(|s: Seq<char>| encode_utf8(s)));
    }
}

proof fn lemma_encode_utf8_add(a: Seq<char>, c: Seq<char>)
    ensures
        encode_utf8(a + c) == encode_utf8(a) + encode_utf8(c),
    decreases a.len(),
{
    if a.len() > 0 {
        lemma_encode_utf8_add(a.drop_first(), c);
        assert((a + c).drop_first() =~= a.drop_first() + c);
        assert(encode_utf8(a + c) =~= encode_utf8(a) + encode_utf8(c));
    } else {
        assert(a + c =~= c);
    }
}

proof fn lemma_chunk_end_within(b: Seq<u8>, start: int, target: int)
    requires
        0 <= start < b.len(),
        target >= 0,
    ensures
        chunk_end(b, start, target) <= start + target,
{
    let e0 = if start + target < b.len() { start + target } else { b.len() as int };
    lemma_back_to_boundary(b, e0, start);
    let e1 = back_to_boundary(b, e0, start);
    if e1 < b.len() {
        let ss = fwd_to_boundary(b, start + seven_tenths(e1 - start), e1);
        lemma_last_break(b, ss, e1, e1);
        match last_break(b, ss, e1, e1) {
            Some(p) => {
                assert(is_char_boundary(b, p));
                assert(fwd_to_boundary(b, p, b.len() as int) == p);
            },
            None => {},
        }
    }
}

proof fn lemma_chunks_within(b: Seq<u8>, start: int, target: int)
    requires
        0 <= start,
        target >= 0,
    ensures
        forall|i: int| 0 <= i < chunks_from(b, start, target).len()
            ==> 0 < (#[trigger] chunks_from(b, start, target)[i]).len() <= target,
    decreases b.len() - start,
{
    if start < b.len() {
        let e = chunk_end(b, start, target);
        if e > start && e <= b.len() {
            lemma_chunk_end_within(b, start, target);
            lemma_chunks_within(b, e, target);
            let rest = chunks_from(b, e, target);
            let all = chunks_from(b, start, target);
            assert(all == seq![b.subrange(start, e)] + rest);
            assert forall|i: int| 0 <= i < all.len() implies 0 < (#[trigger] all[i]).len() <= target by {
                if i > 0 {
                    assert(all[i] == rest[i - 1]);
                }
            }
        }
    }
}

proof fn lemma_chunks_count(b: Seq<u8>, start: int, target: int)
    requires
        0 <= start,
    ensures
        chunks_from(b, start, target).len() <= if start <= b.len() { b.len() - start } else { 0 },
    decreases b.len() - start,
{
    if start < b.len() {
        let e = chunk_end(b, start, target);
        if e > start && e <= b.len() {
            lemma_chunks_count(b, e, target);
        }
    }
}

/// A text gives no more chunks than it has UTF-8 bytes.
pub proof fn lemma_split_content_count(content: Seq<char>, target: int)
    ensures
        spec_split_content(content, target).len() <= encode_utf8(content).len(),
{
    lemma_chunks_count(encode_utf8(content), 0, target);
}

/// Every chunk holds at least one byte and at most `target` bytes of UTF-8.
pub proof fn lemma_split_content_sizes(content: Seq<char>, target: int)
    requires
        target >= 0,
    ensures
        forall|i: int| 0 <= i < spec_split_content(content, target).len()
            ==> 0 < (#[trigger] spec_split_content(content, target)[i]).len() <= target,
{
    lemma_chunks_within(encode_utf8(content), 0, target);
}

/// Splitting a text into chunks loses nothing and invents nothing: the chunks,
/// put back together in order, give a prefix of the text (byte for byte), and the
/// whole text when the target size is at least five bytes (room for two characters
/// of any width).
pub proof fn lemma_split_content_rejoins(content: Seq<char>, target: int, chunks: Seq<Seq<char>>)
    requires
        target >= 0,
        chunks.map_values(|s: Seq<char>| encode_utf8(s)) == spec_split_content(content, target),
    ensures
        encode_utf8(concat_chars(chunks)).len() <= encode_utf8(content).len(),
        encode_utf8(content).subrange(0, encode_utf8(concat_chars(chunks)).len() as int)
            == encode_utf8(concat_chars(chunks)),
        target >= 5 ==> concat_chars(chunks) == content,
{
    let b = encode_utf8(content);
    lemma_concat_chunks_prefix(b, 0, target);
    lemma_utf8_of_concat(chunks);
    let cat = concat_chars(chunks);
    assert(b.subrange(0, b.len() as int) =~= b);
    if target >= 5 {
        assert(encode_utf8(cat) == b);
        assert(decode_utf8(encode_utf8(cat)) == cat);
        assert(decode_utf8(b) == content);
    }
}

/// A chunk that begins with a line break `\n` or with a full stop `。`.
pub open spec fn starts_with_break(c: Seq<u8>) -> bool {
    &&& c.len() > 0
    &&& (c[0] == 10u8 || (c.len() >= 3 && c[0] == 0xE3u8 && c[1] == 0x80u8 && c[2] == 0x82u8))
}

/// Between a chunk and the next: the next begins with a break, or the chunk was cut
/// plainly at a character boundary, which happens only when it is full to within
/// one character (three bytes).
proof fn lemma_first_cut(b: Seq<u8>, start: int, target: int)
    requires
        valid_utf8(b),
        is_char_boundary(b, start),
        0 <= start < b.len(),
        target >= 0,
        start < chunk_end(b, start, target) < b.len(),
        chunk_end(b, chunk_end(b, start, target), target) > chunk_end(b, start, target),
    ensures
        starts_with_break(b.subrange(chunk_end(b, start, target), chunk_end(b, chunk_end(b, start, target), target)))
            || chunk_end(b, start, target) - start + 3 >= target,
{
    let e = chunk_end(b, start, target);
    lemma_chunk_end_bounds(b, start, target);
    lemma_chunk_end_bounds(b, e, target);
    let e2 = chunk_end(b, e, target);
    let e0 = if start + target < b.len() { start + target } else { b.len() as int };
    lemma_back_to_boundary(b, e0, start);
    let e1 = back_to_boundary(b, e0, start);
    if e0 == b.len() {
        assert(is_char_boundary(b, b.len() as int));
        assert(e1 == b.len());
    }
    assert(e1 < b.len());
    let x = start + seven_tenths(e1 - start);
    assert(start <= x <= e1) by (nonlinear_arith)
        requires
            x == start + (e1 - start) * 7 / 10,
            start <= e1,
    ;
    lemma_fwd_to_boundary(b, x, e1);
    let ss = fwd_to_boundary(b, x, e1);
    lemma_last_break(b, ss, e1, e1);
    match last_break(b, ss, e1, e1) {
        Some(p) => {
            assert(is_break_at(b, p, e1));
            assert(fwd_to_boundary(b, p, b.len() as int) == p);
            assert(e == p);
            let c = b.subrange(e, e2);
            if b[p] != 10u8 {
                vstd::utf8::is_char_boundary_iff_not_is_continuation_byte(b, p + 1);
                vstd::utf8::is_char_boundary_iff_not_is_continuation_byte(b, p + 2);
                assert(e2 != p + 1 && e2 != p + 2);
                assert(c.len() >= 3);
            }
        },
        None => {
            assert(e == e1);
            assert(e0 == start + target);
            let w = lemma_next_boundary(b, e1);
            assert(e1 + w > e0);
        },
    }
}

proof fn lemma_chunks_cut(b: Seq<u8>, start: int, target: int)
    requires
        valid_utf8(b),
        0 <= start <= b.len(),
        is_char_boundary(b, start),
        target >= 0,
    ensures
        forall|i: int| 0 <= i && i + 1 < chunks_from(b, start, target).len()
            ==> starts_with_break(#[trigger] chunks_from(b, start, target)[i + 1])
                || chunks_from(b, start, target)[i].len() + 3 >= target,
    decreases b.len() - start,
{
    if start < b.len() {
        lemma_chunk_end_bounds(b, start, target);
        let e = chunk_end(b, start, target);
        if e > start && e <= b.len() {
            lemma_chunks_cut(b, e, target);
            let rest = chunks_from(b, e, target);
            let all = chunks_from(b, start, target);
            assert(all == seq![b.subrange(start, e)] + rest);
            if rest.len() > 0 {
                assert(e < b.len());
                lemma_first_cut(b, start, target);
                assert(rest[0] == b.subrange(e, chunk_end(b, e, target)));
            }
            assert forall|i: int| 0 <= i && i + 1 < all.len() implies starts_with_break(#[trigger] all[i + 1])
                || all[i].len() + 3 >= target by {
                assert(all[i + 1] == rest[i]);
                if i > 0 {
                    let j = i - 1;
                    assert(all[i] == rest[j]);
                    assert(starts_with_break(rest[j + 1]) || rest[j].len() + 3 >= target);
                } else {
                    assert(all[0].len() == e - start);
                }
            }
        }
    }
}

/// A chunk is cut plainly, at a character boundary and not before a break, only
/// when it is full to within one character: every chunk after the first begins with
/// `\n` or `。`, or the chunk before it holds at least `target - 3` bytes.
pub proof fn lemma_split_content_cuts(content: Seq<char>, target: int)
    requires
        target >= 0,
    ensures
        forall|i: int| 0 <= i && i + 1 < spec_split_content(content, target).len()
            ==> starts_with_break(#[trigger] spec_split_content(content, target)[i + 1])
                || spec_split_content(content, target)[i].len() + 3 >= target,
{
    lemma_chunks_cut(encode_utf8(content), 0, target);
}

// ---------------------------------------------------------------------------
// Executable
// ---------------------------------------------------------------------------

/// Cuts `content` into chunks of at most `target` bytes of UTF-8, each ending at a
/// character boundary; when the cut falls inside the text it moves back to the last
/// `\n` or `。` found in the last 30% of the chunk, so that mark begins the next chunk.
/// Put back together the chunks give a prefix of the text, and the whole text when
/// `target` is at least five bytes.
pub fn split_content(content: &str, target: usize) -> (chunks: Vec<String>)
    ensures
        utf8_of_all(chunks@) == spec_split_content(content@, target as int),
        forall|i: int| 0 <= i < chunks@.len() ==> 0 < encode_utf8(#[trigger] chunks@[i]@).len() <= target,
        forall|i: int| 0 <= i && i + 1 < chunks@.len() ==> starts_with_break(encode_utf8(#[trigger] chunks@[i + 1]@))
            || encode_utf8(chunks@[i]@).len() + 3 >= target,
        encode_utf8(content@).subrange(0, encode_utf8(concat_chars(chunks.deep_view())).len() as int)
            == encode_utf8(concat_chars(chunks.deep_view())),
        target >= 5 ==> concat_chars(chunks.deep_view()) == content@,
{
    let b = content.as_bytes();
    let len = b.len();
    let ghost bs = encode_utf8(content@);
    assert(b@ == bs);
    let mut chunks: Vec<String> = Vec::new();
    let mut start: usize = 0;
    while start < len
        invariant
            b@ == bs,
            bs == encode_utf8(content@),
            len == bs.len(),
            valid_utf8(bs),
            start <= len,
            is_char_boundary(bs, start as int),
            utf8_of_all(chunks@) + chunks_from(bs, start as int, target as int) == chunks_from(bs, 0, target as int),
        ensures
            utf8_of_all(chunks@) == chunks_from(bs, 0, target as int),
        decreases len - start,
    {
        proof {
            lemma_chunk_end_bounds(bs, start as int, target as int);
        }
        let e0 = if target < len - start { start + target } else { len };
        let mut end = e0;
        while end > start && !content.is_char_boundary(end)
            invariant
                start <= end <= e0 <= len,
                len == bs.len(),
                bs == encode_utf8(content@),
                back_to_boundary(bs, end as int, start as int) == back_to_boundary(bs, e0 as int, start as int),
            decreases end,
        {
            end -= 1;
        }
        if end < len {
            let span = end - start;
            let mut search_start = start + (span / 10 * 7 + span % 10 * 7 / 10);
            assert(span / 10 * 7 + span % 10 * 7 / 10 == seven_tenths(span as int)) by (nonlinear_arith)
                requires
                    span >= 0,
            ;
            let ghost x = search_start;
            proof {
                assert(seven_tenths(span as int) <= span) by (nonlinear_arith)
                    requires span >= 0,
                ;
            }
            while search_start < end && !content.is_char_boundary(search_start)
                invariant
                    x <= search_start <= end <= len,
                    len == bs.len(),
                    bs == encode_utf8(content@),
                    fwd_to_boundary(bs, search_start as int, end as int) == fwd_to_boundary(bs, x as int, end as int),
                decreases end - search_start,
            {
                search_start += 1;
            }
            // the last `\n` or `。` in content[search_start..end]
            let mut p = end;
            let mut found = false;
            while p > search_start
                invariant_except_break
                    !found,
                    last_break(bs, search_start as int, end as int, end as int)
                        == last_break(bs, search_start as int, p as int, end as int),
                invariant
                    search_start <= p <= end <= len,
                    b@ == bs,
                    bs == encode_utf8(content@),
                    len == bs.len(),
                ensures
                    found ==> last_break(bs, search_start as int, end as int, end as int) == Some(p as int),
                    !found ==> last_break(bs, search_start as int, end as int, end as int) is None,
                decreases p,
            {
                let q = p - 1;
                if content.is_char_boundary(q) && (b[q] == 10u8 || (end - q >= 3 && b[q] == 0xE3u8
                    && b[q + 1] == 0x80u8 && b[q + 2] == 0x82u8)) {
                    assert(is_break_at(bs, q as int, end as int));
                    p = q;
                    found = true;
                    break;
                }
                p = q;
            }
            if found {
                end = p;
                while end < len && !content.is_char_boundary(end)
                    invariant
                        p <= end <= len,
                        len == bs.len(),
                        bs == encode_utf8(content@),
                        fwd_to_boundary(bs, end as int, len as int) == fwd_to_boundary(bs, p as int, len as int),
                    decreases len - end,
                {
                    end += 1;
                }
            }
        }
        assert(end == chunk_end(bs, start as int, target as int));
        if end <= start {
            assert(chunks_from(bs, start as int, target as int) =~= Seq::<Seq<u8>>::empty());
            assert(utf8_of_all(chunks@) + Seq::<Seq<u8>>::empty() =~= utf8_of_all(chunks@));
            break;
        }
        // content[start..end]
        let (left, _) = content.split_at(end);
        proof {
            lemma_boundary_prefix(bs, end as int, start as int);
            assert(encode_utf8(left@) == bs.subrange(0, end as int));
        }
        let (_, mid) = left.split_at(start);
        let piece = mid.to_owned();
        proof {
            assert(encode_utf8(mid@) =~= bs.subrange(start as int, end as int));
            assert(encode_utf8(piece@) == bs.subrange(start as int, end as int));
        }
        let ghost before = utf8_of_all(chunks@);
        chunks.push(piece);
        proof {
            assert(utf8_of_all(chunks@) =~= before.push(bs.subrange(start as int, end as int)));
            let cf = chunks_from(bs, start as int, target as int);
            assert(cf =~= seq![bs.subrange(start as int, end as int)] + chunks_from(bs, end as int, target as int));
            assert(utf8_of_all(chunks@) + chunks_from(bs, end as int, target as int) =~= before + cf);
        }
        start = end;
    }
    proof {
        let cs = spec_split_content(content@, target as int);
        lemma_split_content_sizes(content@, target as int);
        lemma_split_content_cuts(content@, target as int);
        assert forall|i: int| 0 <= i < chunks@.len() implies encode_utf8(#[trigger] chunks@[i]@) == cs[i] by {
            assert(utf8_of_all(chunks@)[i] == encode_utf8(chunks@[i]@));
        }
        assert(chunks.deep_view().map_values(|p: Seq<char>| encode_utf8(p)) =~= utf8_of_all(chunks@));
        lemma_split_content_rejoins(content@, target as int, chunks.deep_view());
    }
    chunks
}

} // verus!

//! Byte-level scanning primitives shared by the tokenizer's executable code
//! and its specification: whitespace skipping, delimiter search, and
//! whitespace trimming of literal spans.
use vstd::prelude::*;

verus! {

/// The whitespace bytes the tokenizer skips: space, tab, CR and LF.
pub open spec fn is_json_ws(c: u8) -> bool {
    c == 32 || c == 9 || c == 13 || c == 10
}

/// Position of the first byte at or after `pos` that is not whitespace,
/// or the end of the buffer if every remaining byte is whitespace.
pub open spec fn skip_ws(buf: Seq<u8>, pos: int) -> int
    decreases buf.len() - pos,
    when 0 <= pos <= buf.len()
{
    if pos == buf.len() {
        pos
    } else if is_json_ws(buf[pos]) {
        skip_ws(buf, pos + 1)
    } else {
        pos
    }
}

pub proof fn lemma_skip_ws(buf: Seq<u8>, pos: int)
    requires
        0 <= pos <= buf.len(),
    ensures
        pos <= skip_ws(buf, pos) <= buf.len(),
        skip_ws(buf, pos) < buf.len() ==> !is_json_ws(buf[skip_ws(buf, pos)]),
        forall|i: int| pos <= i < skip_ws(buf, pos) ==> is_json_ws(buf[i]),
    decreases buf.len() - pos,
{
    if pos < buf.len() && is_json_ws(buf[pos]) {
        lemma_skip_ws(buf, pos + 1);
    }
}

/// Skipping whitespace a second time, from where the first skip stopped,
/// moves the cursor nowhere.
pub proof fn lemma_skip_ws_idempotent(buf: Seq<u8>, pos: int)
    requires
        0 <= pos <= buf.len(),
    ensures
        skip_ws(buf, skip_ws(buf, pos)) == skip_ws(buf, pos),
{
    lemma_skip_ws(buf, pos);
}

/// Index of the first occurrence of `what` at or after `pos`, or the end of
/// the buffer if there is none.
pub open spec fn find_byte(buf: Seq<u8>, pos: int, what: u8) -> int
    decreases buf.len() - pos,
    when 0 <= pos <= buf.len()
{
    if pos == buf.len() {
        pos
    } else if buf[pos] == what {
        pos
    } else {
        find_byte(buf, pos + 1, what)
    }
}

pub proof fn lemma_find_byte(buf: Seq<u8>, pos: int, what: u8)
    requires
        0 <= pos <= buf.len(),
    ensures
        pos <= find_byte(buf, pos, what) <= buf.len(),
        find_byte(buf, pos, what) < buf.len() ==> buf[find_byte(buf, pos, what)] == what,
        forall|i: int| pos <= i < find_byte(buf, pos, what) ==> buf[i] != what,
    decreases buf.len() - pos,
{
    if pos < buf.len() && buf[pos] != what {
        lemma_find_byte(buf, pos + 1, what);
    }
}

/// Index of the first occurrence of `a` or `b` at or after `pos`, or the end
/// of the buffer if there is none.
pub open spec fn find_either(buf: Seq<u8>, pos: int, a: u8, b: u8) -> int
    decreases buf.len() - pos,
    when 0 <= pos <= buf.len()
{
    if pos == buf.len() {
        pos
    } else if buf[pos] == a || buf[pos] == b {
        pos
    } else {
        find_either(buf, pos + 1, a, b)
    }
}

pub proof fn lemma_find_either(buf: Seq<u8>, pos: int, a: u8, b: u8)
    requires
        0 <= pos <= buf.len(),
    ensures
        pos <= find_either(buf, pos, a, b) <= buf.len(),
        find_either(buf, pos, a, b) < buf.len() ==> (buf[find_either(buf, pos, a, b)] == a
            || buf[find_either(buf, pos, a, b)] == b),
        forall|i: int| pos <= i < find_either(buf, pos, a, b) ==> (buf[i] != a && buf[i] != b),
    decreases buf.len() - pos,
{
    if pos < buf.len() && buf[pos] != a && buf[pos] != b {
        lemma_find_either(buf, pos + 1, a, b);
    }
}

/// One past the last byte at or before `end` that is not whitespace, or 0 if
/// every byte before `end` is whitespace.
pub open spec fn rskip_ws(buf: Seq<u8>, end: int) -> int
    decreases end,
    when 0 <= end <= buf.len()
{
    if end == 0 {
        0
    } else if is_json_ws(buf[end - 1]) {
        rskip_ws(buf, end - 1)
    } else {
        end
    }
}

pub proof fn lemma_rskip_ws(buf: Seq<u8>, end: int)
    requires
        0 <= end <= buf.len(),
    ensures
        0 <= rskip_ws(buf, end) <= end,
        rskip_ws(buf, end) > 0 ==> !is_json_ws(buf[rskip_ws(buf, end) - 1]),
        forall|i: int| rskip_ws(buf, end) <= i < end ==> is_json_ws(buf[i]),
    decreases end,
{
    if end > 0 && is_json_ws(buf[end - 1]) {
        lemma_rskip_ws(buf, end - 1);
    }
}

/// The span with leading and trailing whitespace removed.
pub open spec fn trim_ws(b: Seq<u8>) -> Seq<u8> {
    let lo = skip_ws(b, 0);
    let hi = rskip_ws(b, b.len() as int);
    if lo >= hi {
        Seq::empty()
    } else {
        b.subrange(lo, hi)
    }
}

/// `skip_ws` is the only position bounded by whitespace on the left and a
/// non-whitespace byte (or the end) on the right.
pub proof fn lemma_skip_ws_unique(buf: Seq<u8>, pos: int, r: int)
    requires
        0 <= pos <= r <= buf.len(),
        forall|i: int| pos <= i < r ==> is_json_ws(buf[i]),
        r < buf.len() ==> !is_json_ws(buf[r]),
    ensures
        skip_ws(buf, pos) == r,
    decreases r - pos,
{
    if pos < r {
        lemma_skip_ws_unique(buf, pos + 1, r);
    }
}

/// `rskip_ws` is the only position bounded by whitespace on the right and a
/// non-whitespace byte (or the start) on the left.
pub proof fn lemma_rskip_ws_unique(buf: Seq<u8>, end: int, r: int)
    requires
        0 <= r <= end <= buf.len(),
        forall|i: int| r <= i < end ==> is_json_ws(buf[i]),
        r > 0 ==> !is_json_ws(buf[r - 1]),
    ensures
        rskip_ws(buf, end) == r,
    decreases end - r,
{
    if r < end {
        lemma_rskip_ws_unique(buf, end - 1, r);
    }
}

/// `find_byte` is the only position preceded by non-matches that stands on a
/// match (or at the end).
pub proof fn lemma_find_byte_unique(buf: Seq<u8>, pos: int, what: u8, r: int)
    requires
        0 <= pos <= r <= buf.len(),
        forall|i: int| pos <= i < r ==> buf[i] != what,
        r < buf.len() ==> buf[r] == what,
    ensures
        find_byte(buf, pos, what) == r,
    decreases r - pos,
{
    if pos < r {
        lemma_find_byte_unique(buf, pos + 1, what, r);
    }
}

/// `find_either` is the only position preceded by non-matches that stands on
/// a match (or at the end).
pub proof fn lemma_find_either_unique(buf: Seq<u8>, pos: int, a: u8, b: u8, r: int)
    requires
        0 <= pos <= r <= buf.len(),
        forall|i: int| pos <= i < r ==> (buf[i] != a && buf[i] != b),
        r < buf.len() ==> (buf[r] == a || buf[r] == b),
    ensures
        find_either(buf, pos, a, b) == r,
    decreases r - pos,
{
    if pos < r {
        lemma_find_either_unique(buf, pos + 1, a, b, r);
    }
}

/// Byte-for-byte equality of two slices.
pub fn bytes_equal(a: &[u8], b: &[u8]) -> (r: bool)
    ensures
        r == (a@ == b@),
{
    if a.len() != b.len() {
        proof {
            assert(a@ != b@);
        }
        return false;
    }
    let mut i: usize = 0;
    while i < a.len()
        invariant
            0 <= i <= a@.len() == b@.len(),
            forall|k: int| 0 <= k < i ==> a@[k] == b@[k],
        decreases a@.len() - i,
    {
        if a[i] != b[i] {
            return false;
        }
        i = i + 1;
    }
    proof {
        assert(a@ =~= b@);
    }
    true
}

/// Executable twin of [`is_json_ws`].
pub fn is_ws_byte(c: u8) -> (b: bool)
    ensures
        b == is_json_ws(c),
{
    c == 32 || c == 9 || c == 13 || c == 10
}

/// Bounds of `buf[start..end]` with surrounding whitespace removed, so that
/// the trimmed range is exactly [`trim_ws`] of the span.
pub fn trim_range(buf: &[u8], start: usize, end: usize) -> (r: (usize, usize))
    requires
        start <= end <= buf@.len(),
    ensures
        start <= r.0 <= r.1 <= end,
        trim_ws(buf@.subrange(start as int, end as int)) == buf@.subrange(
            r.0 as int,
            r.1 as int,
        ),
{
    let ghost span = buf@.subrange(start as int, end as int);
    let mut ts: usize = start;
    while ts < end && is_ws_byte(buf[ts])
        invariant
            start <= ts <= end <= buf@.len(),
            forall|i: int| start <= i < ts ==> is_json_ws(buf@[i]),
        decreases end - ts,
    {
        ts = ts + 1;
    }
    let mut te: usize = end;
    while te > ts && is_ws_byte(buf[te - 1])
        invariant
            ts <= te <= end <= buf@.len(),
            forall|i: int| te <= i < end ==> is_json_ws(buf@[i]),
        decreases te,
    {
        te = te - 1;
    }
    proof {
        assert(forall|i: int| 0 <= i < span.len() ==> span[i] == buf@[start + i]);
        if ts == end {
            lemma_skip_ws_unique(span, 0, span.len() as int);
            lemma_rskip_ws(span, span.len() as int);
            assert(trim_ws(span) =~= buf@.subrange(ts as int, te as int));
        } else {
            lemma_skip_ws_unique(span, 0, ts - start);
            lemma_rskip_ws_unique(span, span.len() as int, te - start);
            assert(trim_ws(span) =~= buf@.subrange(ts as int, te as int));
        }
    }
    (ts, te)
}

} // verus!

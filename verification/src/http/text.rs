//! Searching, trimming and copying within a window of a byte buffer.

use vstd::prelude::*;

verus! {

pub const CR: u8 = 13;

pub const LF: u8 = 10;

pub const SP: u8 = 32;

pub const HT: u8 = 9;

/// `e` is where the first `a` or `b` of `s` stands, or the length of `s` if
/// it holds neither.
pub open spec fn stops_at(s: Seq<u8>, e: int, a: u8, b: u8) -> bool {
    &&& 0 <= e <= s.len()
    &&& forall|i: int| 0 <= i < e ==> s[i] != a && s[i] != b
    &&& e < s.len() ==> s[e] == a || s[e] == b
}

/// The index of the first `a` or `b` in `s`, or the length of `s`.
pub open spec fn first_of(s: Seq<u8>, a: u8, b: u8) -> int {
    choose|e: int| stops_at(s, e, a, b)
}

/// There is only one index that `stops_at` holds of.
pub proof fn lemma_first_of(s: Seq<u8>, e: int, a: u8, b: u8)
    requires
        stops_at(s, e, a, b),
    ensures
        first_of(s, a, b) == e,
{
    let chosen = first_of(s, a, b);
    assert(stops_at(s, chosen, a, b));
    if chosen < e {
        assert(s[chosen] != a && s[chosen] != b);
    } else if e < chosen {
        assert(s[e] != a && s[e] != b);
    }
}

/// Searching on from `k`, in front of which neither byte stands, finds an
/// index that `stops_at` holds of.
proof fn lemma_stop_search(s: Seq<u8>, a: u8, b: u8, k: int)
    requires
        0 <= k <= s.len(),
        forall|i: int| 0 <= i < k ==> s[i] != a && s[i] != b,
    ensures
        exists|e: int| stops_at(s, e, a, b),
    decreases s.len() - k,
{
    if k == s.len() {
        assert(stops_at(s, k, a, b));
    } else if s[k] == a || s[k] == b {
        assert(stops_at(s, k, a, b));
    } else {
        lemma_stop_search(s, a, b, k + 1);
    }
}

/// `first_of` is an index that `stops_at` holds of.
pub proof fn lemma_first_of_stops(s: Seq<u8>, a: u8, b: u8)
    ensures
        stops_at(s, first_of(s, a, b), a, b),
{
    lemma_stop_search(s, a, b, 0);
}

/// A space or a horizontal tab.
pub open spec fn is_blank(byte: u8) -> bool {
    byte == SP || byte == HT
}

/// `lo` is where the first byte of `s` stands that is not blank, or the
/// length of `s`.
pub open spec fn blank_before(s: Seq<u8>, lo: int) -> bool {
    &&& 0 <= lo <= s.len()
    &&& forall|i: int| 0 <= i < lo ==> is_blank(s[i])
    &&& lo < s.len() ==> !is_blank(s[lo])
}

/// `hi` is just behind the last byte of `s` that is not blank, or 0.
pub open spec fn blank_from(s: Seq<u8>, hi: int) -> bool {
    &&& 0 <= hi <= s.len()
    &&& forall|i: int| hi <= i < s.len() ==> is_blank(s[i])
    &&& 0 < hi ==> !is_blank(s[hi - 1])
}

/// `s` without the blanks at its two ends.
pub open spec fn trim(s: Seq<u8>) -> Seq<u8> {
    let lo = choose|lo: int| blank_before(s, lo);
    let hi = choose|hi: int| blank_from(s, hi);
    if lo < hi {
        s.subrange(lo, hi)
    } else {
        Seq::empty()
    }
}

/// `trim` cuts at the only two indices that `blank_before` and `blank_from`
/// hold of.
pub proof fn lemma_trim(s: Seq<u8>, lo: int, hi: int)
    requires
        blank_before(s, lo),
        blank_from(s, hi),
    ensures
        trim(s) == if lo < hi {
            s.subrange(lo, hi)
        } else {
            Seq::empty()
        },
{
    let l = choose|l: int| blank_before(s, l);
    let h = choose|h: int| blank_from(s, h);
    assert(blank_before(s, l));
    assert(blank_from(s, h));
    if l < lo {
        assert(is_blank(s[l]));
    } else if lo < l {
        assert(is_blank(s[lo]));
    }
    if h < hi {
        assert(is_blank(s[hi - 1]));
    } else if hi < h {
        assert(is_blank(s[h - 1]));
    }
}

/// Searching on from `k`, in front of which all is blank, finds an index
/// that `blank_before` holds of.
proof fn lemma_blank_search(s: Seq<u8>, k: int)
    requires
        0 <= k <= s.len(),
        forall|i: int| 0 <= i < k ==> is_blank(s[i]),
    ensures
        exists|lo: int| blank_before(s, lo),
    decreases s.len() - k,
{
    if k == s.len() {
        assert(blank_before(s, k));
    } else if !is_blank(s[k]) {
        assert(blank_before(s, k));
    } else {
        lemma_blank_search(s, k + 1);
    }
}

/// Searching back from `k`, behind which all is blank, finds an index that
/// `blank_from` holds of.
proof fn lemma_blank_search_back(s: Seq<u8>, k: int)
    requires
        0 <= k <= s.len(),
        forall|i: int| k <= i < s.len() ==> is_blank(s[i]),
    ensures
        exists|hi: int| blank_from(s, hi),
    decreases k,
{
    if k == 0 {
        assert(blank_from(s, k));
    } else if !is_blank(s[k - 1]) {
        assert(blank_from(s, k));
    } else {
        lemma_blank_search_back(s, k - 1);
    }
}

/// `trim` gives a stretch of `s` that neither begins nor ends with a blank.
pub proof fn lemma_trim_shape(s: Seq<u8>)
    ensures
        exists|lo: int, hi: int| 0 <= lo <= hi <= s.len() && trim(s) == #[trigger] s.subrange(lo, hi),
        trim(s).len() > 0 ==> !is_blank(trim(s)[0]) && !is_blank(trim(s).last()),
{
    lemma_blank_search(s, 0);
    lemma_blank_search_back(s, s.len() as int);
    let lo = choose|lo: int| blank_before(s, lo);
    let hi = choose|hi: int| blank_from(s, hi);
    if lo < hi {
        assert(trim(s) == s.subrange(lo, hi));
        assert(trim(s)[0] == s[lo]);
        assert(trim(s).last() == s[hi - 1]);
    } else {
        assert(trim(s) =~= s.subrange(0, 0));
    }
}

/// Finds the first `a` or `b` in the window `from..to` of `bytes`.
pub fn find(bytes: &[u8], from: usize, to: usize, a: u8, b: u8) -> (at: usize)
    requires
        from <= to <= bytes.len(),
    ensures
        from <= at <= to,
        at - from == first_of(bytes@.subrange(from as int, to as int), a, b),
        stops_at(bytes@.subrange(from as int, to as int), at - from, a, b),
{
    let mut at: usize = from;
    let ghost window = bytes@.subrange(from as int, to as int);
    while at < to && bytes[at] != a && bytes[at] != b
        invariant
            from <= at <= to <= bytes.len(),
            window == bytes@.subrange(from as int, to as int),
            forall|i: int| 0 <= i < at - from ==> window[i] != a && window[i] != b,
        decreases to - at,
    {
        assert(window[at - from] == bytes[at as int]);
        at += 1;
    }
    proof {
        if at < to {
            assert(window[at - from] == bytes[at as int]);
        }
        lemma_first_of(window, at - from, a, b);
    }
    at
}

/// Narrows the window `from..to` of `bytes` to what `trim` keeps of it.
pub fn trim_window(bytes: &[u8], from: usize, to: usize) -> (kept: (usize, usize))
    requires
        from <= to <= bytes.len(),
    ensures
        from <= kept.0 <= kept.1 <= to,
        bytes@.subrange(kept.0 as int, kept.1 as int) == trim(bytes@.subrange(from as int, to as int)),
{
    let ghost window = bytes@.subrange(from as int, to as int);
    let mut lo: usize = from;
    while lo < to && (bytes[lo] == SP || bytes[lo] == HT)
        invariant
            from <= lo <= to <= bytes.len(),
            window == bytes@.subrange(from as int, to as int),
            forall|i: int| 0 <= i < lo - from ==> is_blank(window[i]),
        decreases to - lo,
    {
        assert(window[lo - from] == bytes[lo as int]);
        lo += 1;
    }
    let mut hi: usize = to;
    while hi > lo && (bytes[hi - 1] == SP || bytes[hi - 1] == HT)
        invariant
            from <= lo <= hi <= to <= bytes.len(),
            window == bytes@.subrange(from as int, to as int),
            forall|i: int| hi - from <= i < window.len() ==> is_blank(window[i]),
        decreases hi,
    {
        assert(window[hi - 1 - from] == bytes[hi - 1]);
        hi -= 1;
    }
    proof {
        if lo < to {
            assert(window[lo - from] == bytes[lo as int]);
        }
        if hi > lo {
            assert(window[hi - 1 - from] == bytes[hi - 1]);
            lemma_trim(window, lo - from, hi - from);
            assert(window.subrange(lo - from, hi - from) =~= bytes@.subrange(lo as int, hi as int));
        } else {
            // Nothing but blanks behind `lo`, so `lo` is the length or the
            // window is blank throughout.
            assert(lo == to) by {
                if lo < to {
                    assert(is_blank(window[lo - from]));
                }
            }
            lemma_trim(window, lo - from, 0);
            assert(bytes@.subrange(lo as int, hi as int) =~= Seq::<u8>::empty());
        }
    }
    (lo, hi)
}

/// Copies the window `from..to` of `bytes`.
pub fn copy_window(bytes: &[u8], from: usize, to: usize) -> (copy: Vec<u8>)
    requires
        from <= to <= bytes.len(),
    ensures
        copy@ == bytes@.subrange(from as int, to as int),
{
    let mut copy: Vec<u8> = Vec::new();
    let mut i: usize = from;
    while i < to
        invariant
            from <= i <= to <= bytes.len(),
            copy@ == bytes@.subrange(from as int, i as int),
        decreases to - i,
    {
        copy.push(bytes[i]);
        i += 1;
        assert(copy@ =~= bytes@.subrange(from as int, i as int));
    }
    copy
}

/// Tells whether the window `from..to` of `bytes` holds exactly `text`.
pub fn window_is(bytes: &[u8], from: usize, to: usize, text: &[u8]) -> (same: bool)
    requires
        from <= to <= bytes.len(),
    ensures
        same == (bytes@.subrange(from as int, to as int) == text@),
{
    let ghost window = bytes@.subrange(from as int, to as int);
    if to - from != text.len() {
        return false;
    }
    let mut i: usize = 0;
    while i < text.len()
        invariant
            from <= to <= bytes.len(),
            to - from == text.len(),
            i <= text.len(),
            window == bytes@.subrange(from as int, to as int),
            forall|j: int| 0 <= j < i ==> window[j] == text@[j],
        decreases text.len() - i,
    {
        if bytes[from + i] != text[i] {
            assert(window[i as int] != text@[i as int]);
            return false;
        }
        i += 1;
    }
    assert(window =~= text@);
    true
}

/// Appends `text` to `out`.
pub fn append(out: &mut Vec<u8>, text: &[u8])
    ensures
        final(out)@ == old(out)@ + text@,
{
    let mut i: usize = 0;
    while i < text.len()
        invariant
            i <= text.len(),
            out@ == old(out)@ + text@.take(i as int),
        decreases text.len() - i,
    {
        out.push(text[i]);
        i += 1;
        assert(out@ =~= old(out)@ + text@.take(i as int));
    }
    assert(text@.take(i as int) =~= text@);
}

} // verus!

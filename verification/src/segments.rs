//! Splitting a memory image into the parts worth storing.
//!
//! A snapshot of linear memory is mostly zeros, and memory is zero before any
//! data segment is applied, so runs of zeros need not be stored.  Short runs are
//! kept inside a segment all the same: each segment costs a few bytes of header.
use vstd::prelude::*;

verus! {

/// The longest run of zeros that is kept inside a segment.
pub const MAX_CONSECUTIVE_ZEROS: usize = 8;

/// Every byte of `b` from `lo` up to `hi` is zero.
pub open spec fn zeros(b: Seq<u8>, lo: int, hi: int) -> bool {
    forall|i: int| lo <= i < hi ==> #[trigger] b[i] == 0
}

/// No run of more than `MAX_CONSECUTIVE_ZEROS` zeros lies between `lo` and `hi`.
pub open spec fn no_long_run(b: Seq<u8>, lo: int, hi: int) -> bool {
    forall|i: int|
        lo <= i && i + MAX_CONSECUTIVE_ZEROS < hi ==> !#[trigger] zeros(
            b,
            i,
            i + MAX_CONSECUTIVE_ZEROS + 1,
        )
}

/// The first segment of `b` at or after `from` starts at `start`, is `len` bytes
/// long, and the search for the one after it begins at `resume`.
///
/// Zeros before the first non-zero byte belong to the segment unless there are too
/// many of them; zeros after its last non-zero byte never do.
pub open spec fn is_next_segment(
    b: Seq<u8>,
    from: int,
    start: int,
    len: int,
    resume: int,
) -> bool {
    let end = start + len;
    &&& 0 <= from <= start
    &&& 0 < len
    &&& end <= resume <= b.len()
    &&& zeros(b, from, start)
    &&& start == from || (start - from > MAX_CONSECUTIVE_ZEROS && b[start] != 0)
    &&& no_long_run(b, start, end)
    &&& b[end - 1] != 0
    &&& zeros(b, end, resume)
    &&& resume == b.len() || (resume - end > MAX_CONSECUTIVE_ZEROS && b[resume] != 0)
}

/// The segments of a byte slice, handed out one after the other.
pub struct Segments<'a> {
    bytes: &'a [u8],
    offset: usize,
}

impl<'a> Segments<'a> {
    /// The bytes that are being split.
    pub closed spec fn bytes(&self) -> Seq<u8> {
        self.bytes@
    }

    /// Where the search for the next segment begins.
    pub closed spec fn offset(&self) -> int {
        self.offset as int
    }

    #[verifier::type_invariant]
    closed spec fn inv(&self) -> bool {
        self.offset <= self.bytes@.len()
    }

    pub fn new(bytes: &'a [u8]) -> (s: Self)
        ensures
            s.bytes() == bytes@,
            s.offset() == 0,
    {
        Segments { bytes, offset: 0 }
    }

    /// The start and the length of the next segment, or `None` when only zeros are
    /// left.
    pub fn next(&mut self) -> (r: Option<(usize, usize)>)
        ensures
            final(self).bytes() == old(self).bytes(),
            0 <= old(self).offset() <= final(self).offset() <= final(self).bytes().len(),
            match r {
                Some((start, len)) => is_next_segment(
                    old(self).bytes(),
                    old(self).offset(),
                    start as int,
                    len as int,
                    final(self).offset(),
                ),
                None => zeros(old(self).bytes(), old(self).offset(), old(self).bytes().len() as int)
                    && final(self).offset() == old(self).bytes().len(),
            },
    {
        proof {
            use_type_invariant(&*self);
        }
        let ghost b = self.bytes@;
        let from: usize = self.offset;
        let total: usize = self.bytes.len();
        let mut zero_count: usize = 0;
        let mut start: usize = 0;
        let mut length: usize = 0;
        let mut index: usize = 0;
        while index < total - from
            invariant
                b == self.bytes@,
                b == old(self).bytes(),
                total == b.len(),
                from == self.offset,
                from == old(self).offset(),
                from <= total,
                index <= total - from,
                zero_count <= index,
                zeros(b, from + index - zero_count, from + index),
                length == 0 ==> zero_count == index && start == 0,
                length > 0 ==> {
                    let s = from + start;
                    &&& s + length + zero_count == from + index
                    &&& zeros(b, from as int, s)
                    &&& start == 0 || (start > MAX_CONSECUTIVE_ZEROS && b[s] != 0)
                    &&& no_long_run(b, s, s + length)
                    &&& b[s + length - 1] != 0
                },
            decreases total - from - index,
        {
            let ghost p: int = from + index;
            let ghost before: int = zero_count as int;
            if self.bytes[from + index] == 0 {
                zero_count += 1;
            } else {
                if zero_count > MAX_CONSECUTIVE_ZEROS {
                    if length > 0 {
                        self.offset = from + index;
                        return Some((start + from, length));
                    } else {
                        start = index;
                        length = 1;
                    }
                } else {
                    let ghost end: int = from + start + length;
                    let ghost had_one: bool = length > 0;
                    length += zero_count + 1;
                    assert forall|i: int|
                        from + start <= i && i + MAX_CONSECUTIVE_ZEROS < p + 1 implies !#[trigger] zeros(
                        b,
                        i,
                        i + MAX_CONSECUTIVE_ZEROS + 1,
                    ) by {
                        if i + MAX_CONSECUTIVE_ZEROS >= p {
                            assert(b[p] != 0);
                        } else if had_one && i < end {
                            if i + MAX_CONSECUTIVE_ZEROS >= end {
                                assert(b[end - 1] != 0);
                            }
                        }
                    }
                }
                zero_count = 0;
            }
            index += 1;
        }
        self.offset = total;
        if length > 0 {
            Some((start + from, length))
        } else {
            None
        }
    }
}

/// Position `p` lies in the segment `s`.
pub open spec fn in_segment(s: (usize, usize), p: int) -> bool {
    s.0 <= p < s.0 + s.1
}

/// The segment `s` lies in `b`, holds no long run of zeros and ends with a non-zero
/// byte.
pub open spec fn is_tight(b: Seq<u8>, s: (usize, usize)) -> bool {
    &&& 0 < s.1
    &&& s.0 + s.1 <= b.len()
    &&& no_long_run(b, s.0 as int, s.0 + s.1)
    &&& b[s.0 + s.1 - 1] != 0
}

/// Every segment is tight, ends by `end`, and starts with a byte that is not zero, unless
/// it starts the image.
pub open spec fn all_tight(b: Seq<u8>, segs: Seq<(usize, usize)>, end: int) -> bool {
    forall|i: int|
        0 <= i < segs.len() ==> is_tight(b, #[trigger] segs[i]) && segs[i].0 + segs[i].1 <= end && (
        b[segs[i].0 as int] != 0 || (i == 0 && segs[i].0 == 0))
}

/// The segments come in order, with long gaps before the first and between them.
pub open spec fn all_spaced(segs: Seq<(usize, usize)>) -> bool {
    &&& segs.len() > 0 ==> segs[0].0 == 0 || segs[0].0 > MAX_CONSECUTIVE_ZEROS
    &&& forall|i: int, j: int|
        0 <= i < j < segs.len() ==> (#[trigger] segs[j]).0 - ((#[trigger] segs[i]).0 + segs[i].1)
            > MAX_CONSECUTIVE_ZEROS
}

/// The position lies in no segment.
pub open spec fn is_outside(segs: Seq<(usize, usize)>, p: int) -> bool {
    forall|i: int| 0 <= i < segs.len() ==> !in_segment(#[trigger] segs[i], p)
}

/// Before `end` there are only zeros outside the segments.
pub open spec fn all_covered(b: Seq<u8>, segs: Seq<(usize, usize)>, end: int) -> bool {
    forall|p: int| 0 <= p < end && is_outside(segs, p) ==> #[trigger] b[p] == 0
}

/// The segments are those of the image up to `end`.
#[verifier::opaque]
pub open spec fn splits_to(b: Seq<u8>, segs: Seq<(usize, usize)>, end: int) -> bool {
    all_tight(b, segs, end) && all_spaced(segs) && all_covered(b, segs, end)
}

/// `segs` are the segments of `b`: every non-zero byte lies in one of them, they
/// come in order, and a long run of zeros separates each from the next.
pub open spec fn splits(b: Seq<u8>, segs: Seq<(usize, usize)>) -> bool {
    splits_to(b, segs, b.len() as int)
}

proof fn lemma_tight_extended(
    b: Seq<u8>,
    segs: Seq<(usize, usize)>,
    from: int,
    seg: (usize, usize),
    resume: int,
)
    requires
        all_tight(b, segs, from),
        is_next_segment(b, from, seg.0 as int, seg.1 as int, resume),
        segs.len() == 0 ==> from == 0,
        segs.len() > 0 && from < b.len() ==> b[from] != 0,
    ensures
        all_tight(b, segs.push(seg), resume),
{
    let more = segs.push(seg);
    assert(b[seg.0 + seg.1 - 1] != 0);
    assert forall|i: int| 0 <= i < more.len() implies is_tight(b, #[trigger] more[i]) && more[i].0
        + more[i].1 <= resume && (b[more[i].0 as int] != 0 || (i == 0 && more[i].0 == 0)) by {
        if i < segs.len() {
            assert(more[i] == segs[i]);
        }
    }
}

proof fn lemma_spaced_extended(segs: Seq<(usize, usize)>, seg: (usize, usize))
    requires
        all_spaced(segs),
        segs.len() == 0 ==> seg.0 == 0 || seg.0 > MAX_CONSECUTIVE_ZEROS,
        segs.len() > 0 ==> seg.0 - (segs.last().0 + segs.last().1) > MAX_CONSECUTIVE_ZEROS,
    ensures
        all_spaced(segs.push(seg)),
{
    let more = segs.push(seg);
    let n = segs.len() as int;
    assert forall|i: int, j: int| 0 <= i < j < more.len() implies (#[trigger] more[j]).0 - ((
    #[trigger] more[i]).0 + more[i].1) > MAX_CONSECUTIVE_ZEROS by {
        assert(more[i] == segs[i]);
        if j < n {
            assert(more[j] == segs[j]);
        } else if i < n - 1 {
            assert(segs[n - 1].0 - (segs[i].0 + segs[i].1) > MAX_CONSECUTIVE_ZEROS);
        }
    }
}

proof fn lemma_covered_extended(
    b: Seq<u8>,
    segs: Seq<(usize, usize)>,
    from: int,
    seg: (usize, usize),
    resume: int,
)
    requires
        all_covered(b, segs, from),
        is_next_segment(b, from, seg.0 as int, seg.1 as int, resume),
    ensures
        all_covered(b, segs.push(seg), resume),
{
    let more = segs.push(seg);
    assert forall|p: int| 0 <= p < resume && is_outside(more, p) implies #[trigger] b[p] == 0 by {
        if p < from {
            assert(is_outside(segs, p)) by {
                assert forall|i: int| 0 <= i < segs.len() implies !in_segment(
                    #[trigger] segs[i],
                    p,
                ) by {
                    assert(more[i] == segs[i]);
                }
            }
        } else {
            assert(!in_segment(more[segs.len() as int], p));
        }
    }
}

/// One segment more.
proof fn lemma_split_extended(
    b: Seq<u8>,
    segs: Seq<(usize, usize)>,
    from: int,
    seg: (usize, usize),
    resume: int,
)
    requires
        splits_to(b, segs, from),
        is_next_segment(b, from, seg.0 as int, seg.1 as int, resume),
        segs.len() == 0 ==> from == 0,
        segs.len() > 0 ==> from == b.len() || (b[from] != 0 && from - (segs.last().0
            + segs.last().1) > MAX_CONSECUTIVE_ZEROS),
    ensures
        splits_to(b, segs.push(seg), resume),
{
    reveal(splits_to);
    lemma_tight_extended(b, segs, from, seg, resume);
    lemma_spaced_extended(segs, seg);
    lemma_covered_extended(b, segs, from, seg, resume);
}

/// The segments of a whole image.
pub fn all_segments(bytes: &[u8]) -> (segs: Vec<(usize, usize)>)
    ensures
        splits(bytes@, segs@),
        segs@ == segments_of(bytes@),
{
    let mut rest = Segments::new(bytes);
    let mut segs: Vec<(usize, usize)> = Vec::new();
    let ghost b = bytes@;
    assert(splits_to(b, segs@, 0)) by {
        reveal(splits_to);
    }
    loop
        invariant
            b == bytes@,
            rest.bytes() == b,
            0 <= rest.offset() <= b.len(),
            splits_to(b, segs@, rest.offset()),
            segs@.len() == 0 ==> rest.offset() == 0,
            segs@.len() > 0 ==> rest.offset() == b.len() || (b[rest.offset()] != 0 && rest.offset()
                - (segs@.last().0 + segs@.last().1) > MAX_CONSECUTIVE_ZEROS),
        decreases b.len() - rest.offset(),
    {
        let ghost from = rest.offset();
        match rest.next() {
            None => {
                proof {
                    lemma_split_ended(b, segs@, from);
                    law_split_is_unique(b, segs@, segments_of(b));
                }
                return segs;
            },
            Some(seg) => {
                proof {
                    lemma_split_extended(b, segs@, from, seg, rest.offset());
                }
                segs.push(seg);
            },
        }
    }
}

/// Nothing but zeros is left.
proof fn lemma_split_ended(b: Seq<u8>, segs: Seq<(usize, usize)>, from: int)
    requires
        0 <= from <= b.len(),
        splits_to(b, segs, from),
        zeros(b, from, b.len() as int),
    ensures
        splits(b, segs),
{
    reveal(splits_to);
}

/// A segment of an image lies within it and is worth keeping as one.
pub proof fn lemma_tight(b: Seq<u8>, segs: Seq<(usize, usize)>, i: int)
    requires
        splits(b, segs),
        0 <= i < segs.len(),
    ensures
        is_tight(b, segs[i]),
{
    reveal(splits_to);
}

/// The byte at `p` when `data[i]` is written at the start of `segs[i]`, for every
/// `i`, over zeros.
pub open spec fn restored_byte(segs: Seq<(usize, usize)>, data: Seq<Seq<u8>>, p: int) -> u8 {
    if exists|i: int| 0 <= i < segs.len() && in_segment(#[trigger] segs[i], p) {
        let i = choose|i: int| 0 <= i < segs.len() && in_segment(#[trigger] segs[i], p);
        data[i][p - segs[i].0]
    } else {
        0
    }
}

/// The image that results when `data[i]` is written at the start of `segs[i]`, for
/// every `i`, into `len` bytes of zeros.
pub open spec fn restored(len: nat, segs: Seq<(usize, usize)>, data: Seq<Seq<u8>>) -> Seq<u8> {
    Seq::new(len, |p: int| restored_byte(segs, data, p))
}

/// The bytes of `b` in each of the segments.
pub open spec fn segment_data(b: Seq<u8>, segs: Seq<(usize, usize)>) -> Seq<Seq<u8>> {
    Seq::new(segs.len(), |i: int| b.subrange(segs[i].0 as int, segs[i].0 + segs[i].1))
}

/// The segments of an image hold all of it: writing their bytes into zeroed memory
/// of the same size gives the image back.
pub proof fn law_segments_restore_image(b: Seq<u8>, segs: Seq<(usize, usize)>)
    requires
        splits(b, segs),
    ensures
        restored(b.len(), segs, segment_data(b, segs)) == b,
{
    let r = restored(b.len(), segs, segment_data(b, segs));
    assert forall|p: int| 0 <= p < b.len() implies #[trigger] r[p] == b[p] by {
        lemma_restored_byte(b, segs, p);
    }
    assert(r =~= b);
}

proof fn lemma_restored_byte(b: Seq<u8>, segs: Seq<(usize, usize)>, p: int)
    requires
        splits(b, segs),
        0 <= p < b.len(),
    ensures
        restored_byte(segs, segment_data(b, segs), p) == b[p],
{
    if exists|i: int| 0 <= i < segs.len() && in_segment(#[trigger] segs[i], p) {
        let i = choose|i: int| 0 <= i < segs.len() && in_segment(#[trigger] segs[i], p);
        lemma_tight(b, segs, i);
        assert(segment_data(b, segs)[i] == b.subrange(segs[i].0 as int, segs[i].0 + segs[i].1));
    } else {
        if b[p] != 0 {
            let i = lemma_covered(b, segs, p);
            assert(in_segment(segs[i], p));
        }
    }
}

/// No byte lies in two segments.
pub proof fn law_segments_are_disjoint(b: Seq<u8>, segs: Seq<(usize, usize)>, p: int, i: int, j: int)
    requires
        splits(b, segs),
        0 <= i < segs.len(),
        0 <= j < segs.len(),
        in_segment(segs[i], p),
        in_segment(segs[j], p),
    ensures
        i == j,
{
    reveal(splits_to);
}

/// An image has one next segment from each position: the search leaves no choice.
pub proof fn law_next_segment_is_unique(
    b: Seq<u8>,
    from: int,
    s1: int,
    l1: int,
    r1: int,
    s2: int,
    l2: int,
    r2: int,
)
    requires
        is_next_segment(b, from, s1, l1, r1),
        is_next_segment(b, from, s2, l2, r2),
    ensures
        s1 == s2,
        l1 == l2,
        r1 == r2,
{
    lemma_start_at_most(b, from, s1, l1, r1, s2, l2, r2);
    lemma_start_at_most(b, from, s2, l2, r2, s1, l1, r1);
    lemma_end_at_most(b, from, s1, l1, r1, l2, r2);
    lemma_end_at_most(b, from, s1, l2, r2, l1, r1);
    if r1 < r2 {
        assert(b[r1] == 0);
    } else if r2 < r1 {
        assert(b[r2] == 0);
    }
}

proof fn lemma_start_at_most(
    b: Seq<u8>,
    from: int,
    s1: int,
    l1: int,
    r1: int,
    s2: int,
    l2: int,
    r2: int,
)
    requires
        is_next_segment(b, from, s1, l1, r1),
        is_next_segment(b, from, s2, l2, r2),
    ensures
        s1 <= s2,
{
    if s2 < s1 {
        if s2 > from {
            assert(b[s2] == 0);
        } else {
            // All of `from..s1` is zero, and longer than a segment may hold.
            if s2 + l2 <= s1 {
                assert(b[s2 + l2 - 1] == 0);
            } else {
                assert(zeros(b, s2, s2 + MAX_CONSECUTIVE_ZEROS + 1));
            }
        }
    }
}

proof fn lemma_end_at_most(b: Seq<u8>, from: int, s: int, l1: int, r1: int, l2: int, r2: int)
    requires
        is_next_segment(b, from, s, l1, r1),
        is_next_segment(b, from, s, l2, r2),
    ensures
        l1 <= l2,
{
    if l2 < l1 {
        let e2 = s + l2;
        let e1 = s + l1;
        if r2 < e1 {
            assert(zeros(b, e2, e2 + MAX_CONSECUTIVE_ZEROS + 1));
        } else {
            assert(b[e1 - 1] == 0);
        }
    }
}

/// A byte that is not zero lies in a segment.
pub proof fn lemma_covered(b: Seq<u8>, segs: Seq<(usize, usize)>, p: int) -> (i: int)
    requires
        splits(b, segs),
        0 <= p < b.len(),
        b[p] != 0,
    ensures
        0 <= i < segs.len(),
        in_segment(segs[i], p),
{
    reveal(splits_to);
    let found = exists|i: int| 0 <= i < segs.len() && in_segment(#[trigger] segs[i], p);
    assert(found);
    choose|i: int| 0 <= i < segs.len() && in_segment(#[trigger] segs[i], p)
}

/// Where a segment starts there is a byte that is not zero, unless it starts the image.
proof fn lemma_start_byte(b: Seq<u8>, segs: Seq<(usize, usize)>, i: int)
    requires
        splits(b, segs),
        0 <= i < segs.len(),
    ensures
        b[segs[i].0 as int] != 0 || (i == 0 && segs[i].0 == 0),
        segs[0].0 == 0 || segs[0].0 > MAX_CONSECUTIVE_ZEROS,
{
    reveal(splits_to);
}

/// There are only zeros before the first segment.
proof fn lemma_start_is_zero(b: Seq<u8>, segs: Seq<(usize, usize)>, z: int)
    requires
        splits(b, segs),
        segs.len() > 0,
        0 <= z < segs[0].0,
    ensures
        z < b.len(),
        b[z] == 0,
{
    lemma_tight(b, segs, 0);
    if b[z] != 0 {
        let j = lemma_covered(b, segs, z);
        if j > 0 {
            lemma_spaced(b, segs, 0, j);
        }
    }
}

/// A segment that starts the image with a zero does so in every list.
proof fn lemma_zero_start(b: Seq<u8>, s1: Seq<(usize, usize)>, s2: Seq<(usize, usize)>)
    requires
        splits(b, s1),
        splits(b, s2),
        s1.len() > 0,
        s2.len() > 0,
        s1[0].0 == 0,
    ensures
        s2[0].0 == 0,
{
    lemma_start_byte(b, s2, 0);
    if s2[0].0 > 0 {
        lemma_tight(b, s1, 0);
        assert forall|z: int| 0 <= z < s2[0].0 implies #[trigger] b[z] == 0 by {
            lemma_start_is_zero(b, s2, z);
        }
        assert(b[s1[0].1 - 1] != 0);
        assert(zeros(b, 0, 0 + MAX_CONSECUTIVE_ZEROS + 1));
    }
}

/// The first segment in which two lists may differ starts no later in one of them.
proof fn lemma_same_start(
    b: Seq<u8>,
    s1: Seq<(usize, usize)>,
    s2: Seq<(usize, usize)>,
    i: int,
)
    requires
        splits(b, s1),
        splits(b, s2),
        0 <= i < s1.len(),
        i < s2.len(),
        forall|j: int| 0 <= j < i ==> #[trigger] s1[j] == s2[j],
    ensures
        s2[i].0 <= s1[i].0,
{
    let p = s1[i].0 as int;
    if p < s2[i].0 {
        lemma_tight(b, s1, i);
        lemma_start_byte(b, s1, i);
        if b[p] != 0 {
            let j = lemma_covered(b, s2, p);
            if j < i {
                assert(s1[j] == s2[j]);
                law_segments_are_disjoint(b, s1, p, i, j);
            } else if j > i {
                lemma_spaced(b, s2, i, j);
            }
        } else {
            lemma_zero_start(b, s1, s2);
        }
    }
}

/// There are only zeros in the gap behind a segment.
proof fn lemma_gap_is_zero(b: Seq<u8>, segs: Seq<(usize, usize)>, i: int, k: int, z: int)
    requires
        splits(b, segs),
        0 <= i < k < segs.len(),
        segs[i].0 + segs[i].1 <= z < segs[i].0 + segs[i].1 + MAX_CONSECUTIVE_ZEROS + 1,
    ensures
        0 <= z < b.len(),
        b[z] == 0,
{
    lemma_spaced(b, segs, i, k);
    lemma_tight(b, segs, k);
    if b[z] != 0 {
        let j = lemma_covered(b, segs, z);
        if j < i {
            lemma_spaced(b, segs, j, i);
        } else if j > i {
            lemma_spaced(b, segs, i, j);
        }
    }
}

/// Between two segments there is a long gap.
proof fn lemma_spaced(b: Seq<u8>, segs: Seq<(usize, usize)>, i: int, j: int)
    requires
        splits(b, segs),
        0 <= i < j < segs.len(),
    ensures
        segs[j].0 - (segs[i].0 + segs[i].1) > MAX_CONSECUTIVE_ZEROS,
{
    reveal(splits_to);
}

/// A byte of one list's segment that lies behind the same segment of another is in a later
/// segment of the other.
proof fn lemma_later_segment(
    b: Seq<u8>,
    s1: Seq<(usize, usize)>,
    s2: Seq<(usize, usize)>,
    i: int,
    p: int,
) -> (k: int)
    requires
        splits(b, s1),
        splits(b, s2),
        0 <= i < s1.len(),
        i < s2.len(),
        forall|j: int| 0 <= j < i ==> #[trigger] s1[j] == s2[j],
        in_segment(s2[i], p),
        s1[i].0 + s1[i].1 <= p < b.len(),
        b[p] != 0,
    ensures
        i < k < s1.len(),
        in_segment(s1[k], p),
{
    let k = lemma_covered(b, s1, p);
    if k < i {
        assert(s1[k] == s2[k]);
        law_segments_are_disjoint(b, s2, p, i, k);
    }
    k
}

/// It ends no later either.
proof fn lemma_same_end(b: Seq<u8>, s1: Seq<(usize, usize)>, s2: Seq<(usize, usize)>, i: int)
    requires
        splits(b, s1),
        splits(b, s2),
        0 <= i < s1.len(),
        i < s2.len(),
        forall|j: int| 0 <= j < i ==> #[trigger] s1[j] == s2[j],
        s1[i].0 == s2[i].0,
    ensures
        s2[i].1 <= s1[i].1,
{
    let e1 = s1[i].0 + s1[i].1;
    let e2 = s2[i].0 + s2[i].1;
    if e1 < e2 {
        lemma_tight(b, s2, i);
        let k = lemma_later_segment(b, s1, s2, i, e2 - 1);
        lemma_spaced(b, s1, i, k);
        assert forall|z: int| e1 <= z < e1 + MAX_CONSECUTIVE_ZEROS + 1 implies #[trigger] b[z]
            == 0 by {
            lemma_gap_is_zero(b, s1, i, k, z);
        }
        assert(zeros(b, e1, e1 + MAX_CONSECUTIVE_ZEROS + 1));
    }
}

proof fn lemma_same_segment(
    b: Seq<u8>,
    s1: Seq<(usize, usize)>,
    s2: Seq<(usize, usize)>,
    i: int,
)
    requires
        splits(b, s1),
        splits(b, s2),
        0 <= i < s1.len(),
        i < s2.len(),
    ensures
        s1[i] == s2[i],
    decreases i,
{
    assert forall|j: int| 0 <= j < i implies #[trigger] s1[j] == s2[j] by {
        lemma_same_segment(b, s1, s2, j);
    }
    assert forall|j: int| 0 <= j < i implies #[trigger] s2[j] == s1[j] by {
        assert(s1[j] == s2[j]);
    }
    lemma_same_start(b, s1, s2, i);
    lemma_same_start(b, s2, s1, i);
    lemma_same_end(b, s1, s2, i);
    lemma_same_end(b, s2, s1, i);
}

proof fn lemma_no_longer(b: Seq<u8>, s1: Seq<(usize, usize)>, s2: Seq<(usize, usize)>)
    requires
        splits(b, s1),
        splits(b, s2),
    ensures
        s1.len() <= s2.len(),
{
    if s2.len() < s1.len() {
        let i = s2.len() as int;
        let p = s1[i].0 + s1[i].1 - 1;
        lemma_tight(b, s1, i);
        let j = lemma_covered(b, s2, p);
        lemma_same_segment(b, s1, s2, j);
        law_segments_are_disjoint(b, s1, p, i, j);
    }
}

/// An image splits in one way only.
pub proof fn law_split_is_unique(b: Seq<u8>, s1: Seq<(usize, usize)>, s2: Seq<(usize, usize)>)
    requires
        splits(b, s1),
        splits(b, s2),
    ensures
        s1 == s2,
{
    lemma_no_longer(b, s1, s2);
    lemma_no_longer(b, s2, s1);
    assert forall|i: int| 0 <= i < s1.len() implies s1[i] == s2[i] by {
        lemma_same_segment(b, s1, s2, i);
    }
    assert(s1 =~= s2);
}

/// The segments into which an image splits.
pub open spec fn segments_of(b: Seq<u8>) -> Seq<(usize, usize)> {
    choose|segs: Seq<(usize, usize)>| splits(b, segs)
}

/// The first byte from `from` on that is not zero, or the end of the image.
proof fn lemma_first_nonzero(b: Seq<u8>, from: int) -> (q: int)
    requires
        0 <= from <= b.len(),
    ensures
        from <= q <= b.len(),
        zeros(b, from, q),
        q < b.len() ==> b[q] != 0,
    decreases b.len() - from,
{
    if from == b.len() || b[from] != 0 {
        from
    } else {
        lemma_first_nonzero(b, from + 1)
    }
}

/// A stretch of an image can be taken as far as a segment goes.
proof fn lemma_segment_end(b: Seq<u8>, from: int, start: int, end: int) -> (r: (int, int))
    requires
        0 <= from <= start < end <= b.len(),
        zeros(b, from, start),
        start == from || (start - from > MAX_CONSECUTIVE_ZEROS && b[start] != 0),
        no_long_run(b, start, end),
        b[end - 1] != 0,
    ensures
        is_next_segment(b, from, start, r.0, r.1),
    decreases b.len() - end,
{
    let q = lemma_first_nonzero(b, end);
    if q == b.len() || q - end > MAX_CONSECUTIVE_ZEROS {
        (end - start, q)
    } else {
        assert forall|i: int| start <= i && i + MAX_CONSECUTIVE_ZEROS < q + 1 implies !#[trigger] zeros(
            b,
            i,
            i + MAX_CONSECUTIVE_ZEROS + 1,
        ) by {
            if i + MAX_CONSECUTIVE_ZEROS >= q {
                assert(b[q] != 0);
            } else if i < end && i + MAX_CONSECUTIVE_ZEROS >= end {
                assert(b[end - 1] != 0);
            }
        }
        lemma_segment_end(b, from, start, q + 1)
    }
}

/// There is a segment wherever there is a byte that is not zero.
proof fn lemma_next_segment(b: Seq<u8>, from: int) -> (r: (int, int, int))
    requires
        0 <= from <= b.len(),
        !zeros(b, from, b.len() as int),
    ensures
        is_next_segment(b, from, r.0, r.1, r.2),
{
    let q = lemma_first_nonzero(b, from);
    assert(q < b.len());
    let start = if q - from > MAX_CONSECUTIVE_ZEROS {
        q
    } else {
        from
    };
    assert(no_long_run(b, start, q + 1)) by {
        assert forall|i: int| start <= i && i + MAX_CONSECUTIVE_ZEROS < q + 1 implies !#[trigger] zeros(
            b,
            i,
            i + MAX_CONSECUTIVE_ZEROS + 1,
        ) by {
            assert(b[q] != 0);
        }
    }
    let (len, resume) = lemma_segment_end(b, from, start, q + 1);
    (start, len, resume)
}

proof fn lemma_rest_splits(b: Seq<u8>, segs: Seq<(usize, usize)>, from: int) -> (all: Seq<
    (usize, usize),
>)
    requires
        b.len() <= usize::MAX,
        0 <= from <= b.len(),
        splits_to(b, segs, from),
        segs.len() == 0 ==> from == 0,
        segs.len() > 0 ==> from == b.len() || (b[from] != 0 && from - (segs.last().0
            + segs.last().1) > MAX_CONSECUTIVE_ZEROS),
    ensures
        splits(b, all),
    decreases b.len() - from,
{
    if zeros(b, from, b.len() as int) {
        lemma_split_ended(b, segs, from);
        segs
    } else {
        let (start, len, resume) = lemma_next_segment(b, from);
        let seg = (start as usize, len as usize);
        lemma_split_extended(b, segs, from, seg, resume);
        lemma_rest_splits(b, segs.push(seg), resume)
    }
}

/// Every image splits.
pub proof fn law_every_image_splits(b: Seq<u8>)
    requires
        b.len() <= usize::MAX,
    ensures
        splits(b, segments_of(b)),
{
    assert(splits_to(b, seq![], 0)) by {
        reveal(splits_to);
    }
    let segs = lemma_rest_splits(b, seq![], 0);
    assert(splits(b, segs));
}

/// The segments before one take up room.
proof fn lemma_start_at_least(b: Seq<u8>, segs: Seq<(usize, usize)>, k: int)
    requires
        splits(b, segs),
        0 <= k < segs.len(),
    ensures
        segs[k].0 >= k,
    decreases k,
{
    if k > 0 {
        lemma_start_at_least(b, segs, k - 1);
        reveal(splits_to);
        assert(segs[k].0 - (segs[k - 1].0 + segs[k - 1].1) > MAX_CONSECUTIVE_ZEROS);
    }
}

/// There are no more segments than addresses up to the start of the last.
pub proof fn lemma_segment_count(b: Seq<u8>, segs: Seq<(usize, usize)>, bound: int)
    requires
        splits(b, segs),
        forall|k: int| 0 <= k < segs.len() ==> (#[trigger] segs[k]).0 <= bound,
        bound >= 0,
    ensures
        segs.len() <= bound + 1,
{
    if segs.len() > 0 {
        lemma_start_at_least(b, segs, segs.len() - 1);
    }
}

/// Every byte of an image that is not zero lies in one of its segments.
pub proof fn law_every_byte_that_is_not_zero_is_stored(b: Seq<u8>, p: int)
    requires
        b.len() <= usize::MAX,
        0 <= p < b.len(),
        b[p] != 0,
    ensures
        exists|k: int|
            0 <= k < segments_of(b).len() && (#[trigger] segments_of(b)[k]).0 <= p
                < segments_of(b)[k].0 + segments_of(b)[k].1,
{
    law_every_image_splits(b);
    let k = lemma_covered(b, segments_of(b), p);
    assert(segments_of(b)[k].0 <= p < segments_of(b)[k].0 + segments_of(b)[k].1);
}

/// A segment lies in the image, ends with a byte that is not zero, and starts with one unless
/// it starts the image.
pub proof fn law_segments_start_and_end_with_data(b: Seq<u8>, i: int)
    requires
        b.len() <= usize::MAX,
        0 <= i < segments_of(b).len(),
    ensures
        ({
            let (start, len) = segments_of(b)[i];
            &&& 0 < len
            &&& start + len <= b.len()
            &&& b[start + len - 1] != 0
            &&& b[start as int] != 0 || start == 0
        }),
{
    let segs = segments_of(b);
    law_every_image_splits(b);
    lemma_tight(b, segs, i);
    assert(b[segs[i].0 as int] != 0 || segs[i].0 == 0) by {
        reveal(splits_to);
    }
}

/// Nine zeros or more lie between a segment and the next, and before the first unless it
/// starts the image.
pub proof fn law_segments_lie_nine_zeros_apart(b: Seq<u8>, i: int, j: int)
    requires
        b.len() <= usize::MAX,
    ensures
        0 <= i < j < segments_of(b).len() ==> segments_of(b)[i].0 + segments_of(b)[i].1 + 9
            <= segments_of(b)[j].0,
        segments_of(b).len() > 0 && segments_of(b)[0].0 > 0 ==> segments_of(b)[0].0 >= 9,
{
    law_every_image_splits(b);
    lemma_all_spaced(b, segments_of(b));
}

proof fn lemma_all_spaced(b: Seq<u8>, segs: Seq<(usize, usize)>)
    requires
        splits(b, segs),
    ensures
        all_spaced(segs),
{
    reveal(splits_to);
}

/// Nine zeros in a row lie in no segment.
pub proof fn law_nine_zeros_are_not_stored(b: Seq<u8>, i: int, p: int)
    requires
        b.len() <= usize::MAX,
        0 <= i < segments_of(b).len(),
        segments_of(b)[i].0 <= p,
        p + 9 <= segments_of(b)[i].0 + segments_of(b)[i].1,
    ensures
        exists|x: int| p <= x < p + 9 && #[trigger] b[x] != 0,
{
    let segs = segments_of(b);
    law_every_image_splits(b);
    lemma_tight(b, segs, i);
    assert(!zeros(b, p, p + MAX_CONSECUTIVE_ZEROS + 1));
}

/// A segment that is handed out is followed by nine zeros or more, or by zeros up to the end
/// of the image; what lies before it, back to where the search began, is left out only if it
/// is nine zeros or more.
pub proof fn law_next_segment_skips_long_runs(
    b: Seq<u8>,
    from: int,
    start: int,
    len: int,
    resume: int,
    x: int,
)
    requires
        is_next_segment(b, from, start, len, resume),
    ensures
        start == from || start >= from + 9,
        resume == b.len() || resume >= start + len + 9,
        from <= x < start || start + len <= x < resume ==> b[x] == 0,
        b[start + len - 1] != 0,
        start > from ==> b[start] != 0,
        start <= x && x + 9 <= start + len ==> exists|y: int|
            x <= y < x + 9 && #[trigger] b[y] != 0,
{
    if start <= x && x + 9 <= start + len {
        assert(!zeros(b, x, x + MAX_CONSECUTIVE_ZEROS + 1));
    }
}

} // verus!

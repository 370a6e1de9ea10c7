//! Find the optimal data mode sequence to encode a piece of data.

use crate::charset::{
    alphanumeric_digit, alphanumeric_value, char_count, digit, is_digit, is_kanji_pair,
    kanji_pair, mode_accepts,
};
use crate::types::{Mode, Version, RMQR_LENGTH_BITS_COUNT};
use vstd::prelude::*;

verus! {

//------------------------------------------------------------------------------
// Segment
/// A segment of data committed to an encoding mode.
#[derive(Debug, PartialEq, Eq, Copy, Clone, Structural)]
pub struct Segment {
    /// The encoding mode of the segment of data.
    pub mode: Mode,
    /// The start index of the segment.
    pub begin: usize,
    /// The end index (exclusive) of the segment.
    pub end: usize,
}

/// The number of bits of a segment of a mode with a number of characters:
/// the mode indicator, the character count and the characters.
pub open spec fn segment_len(version: Version, mode: Mode, chars: int) -> int {
    version.spec_mode_bits_count() + mode.spec_length_bits_count(version)
        + mode.spec_data_bits_count(chars)
}

/// The mode indicator and the character count take at most 20 bits.
pub proof fn lemma_header_bound(version: Version, mode: Mode)
    requires
        version is Micro ==> version.is_valid(),
    ensures
        0 <= version.spec_mode_bits_count() <= 4,
        0 <= mode.spec_length_bits_count(version) <= 16,
{
    if version is RectMicro {
        let row = match version.spec_rect_micro_index() {
            Some(i) => i,
            None => 31,
        };
        assert(0 <= row < 32);
        assert(0 <= mode.index() < 4);
        assert(RMQR_LENGTH_BITS_COUNT[row][mode.index()] <= 16);
    }
}

impl Segment {
    /// The number of bits (including the header) of the segment when it is
    /// encoded in a version.
    pub open spec fn spec_encoded_len(self, version: Version) -> int {
        segment_len(version, self.mode, char_count(self.mode, self.end - self.begin))
    }

    /// Compute the number of bits (including the size of the mode indicator)
    /// needed to encode this segment.
    pub fn encoded_len(&self, version: Version) -> (r: usize)
        requires
            version is Micro ==> version.is_valid(),
            self.begin <= self.end,
            (self.end - self.begin) * 13 + 22 <= usize::MAX,
        ensures
            r == self.spec_encoded_len(version),
    {
        let byte_size = self.end - self.begin;
        let chars_count = match self.mode {
            Mode::Kanji => byte_size / 2,
            _ => byte_size,
        };
        proof {
            lemma_header_bound(version, self.mode);
        }
        let mode_bits_count = version.mode_bits_count();
        let length_bits_count = self.mode.length_bits_count(version);
        let data_bits_count = self.mode.data_bits_count(chars_count);
        mode_bits_count + length_bits_count + data_bits_count
    }
}

/// Computes the number of bits of a segment of a mode that holds a number of
/// bytes.
pub fn segment_cost(version: Version, mode: Mode, bytes: usize) -> (r: u128)
    requires
        version is Micro ==> version.is_valid(),
    ensures
        r == segment_len(version, mode, char_count(mode, bytes as int)),
        r <= 20 + 13 * bytes,
{
    proof {
        lemma_header_bound(version, mode);
    }
    let header: u128 = (version.mode_bits_count() + mode.length_bits_count(version)) as u128;
    let n: u128 = bytes as u128;
    header + match mode {
        Mode::Numeric => (n * 10 + 2) / 3,
        Mode::Alphanumeric => (n * 11 + 1) / 2,
        Mode::Byte => n * 8,
        Mode::Kanji => (n / 2) * 13,
    }
}

//------------------------------------------------------------------------------
// Segmentations
/// The segments cut the first `end` bytes of the data into pieces that
/// follow one another, none of them empty, each in a mode that can hold its
/// bytes.
pub open spec fn is_segmentation(data: Seq<u8>, segs: Seq<Segment>, end: int) -> bool {
    &&& 0 <= end <= data.len()
    &&& forall|i: int|
        0 <= i < segs.len() ==> (#[trigger] segs[i]).begin < segs[i].end && mode_accepts(
            segs[i].mode,
            data.subrange(segs[i].begin as int, segs[i].end as int),
        )
    &&& forall|i: int, j: int|
        0 <= i && j == i + 1 && j < segs.len() ==> (#[trigger] segs[i]).end == (
        #[trigger] segs[j]).begin
    &&& if segs.len() == 0 {
        end == 0
    } else {
        segs[0].begin == 0 && segs.last().end == end
    }
}

/// The number of bits of all segments together.
pub open spec fn total_len(segs: Seq<Segment>, version: Version) -> int
    decreases segs.len(),
{
    if segs.len() == 0 {
        0
    } else {
        total_len(segs.drop_last(), version) + segs.last().spec_encoded_len(version)
    }
}

/// The segments cut all of the data, and no other way to cut the data takes
/// fewer bits in the version.
pub open spec fn is_optimal(data: Seq<u8>, segs: Seq<Segment>, version: Version) -> bool {
    &&& is_segmentation(data, segs, data.len() as int)
    &&& forall|other: Seq<Segment>| #[trigger]
        is_segmentation(data, other, data.len() as int) ==> total_len(segs, version) <= total_len(
            other,
            version,
        )
}

/// Without its last segment, a segmentation is one of the bytes before that
/// segment.
pub proof fn lemma_segmentation_drop_last(data: Seq<u8>, segs: Seq<Segment>, end: int)
    requires
        is_segmentation(data, segs, end),
        segs.len() > 0,
    ensures
        is_segmentation(data, segs.drop_last(), segs.last().begin as int),
        segs.last().end == end,
        segs.last().begin < end,
        mode_accepts(segs.last().mode, data.subrange(segs.last().begin as int, end)),
{
    let rest = segs.drop_last();
    let last = segs.last();
    assert(segs[segs.len() - 1] == last);
    assert forall|i: int| 0 <= i < rest.len() implies (#[trigger] rest[i]).begin < rest[i].end
        && mode_accepts(rest[i].mode, data.subrange(rest[i].begin as int, rest[i].end as int)) by {
        assert(rest[i] == segs[i]);
    }
    assert forall|i: int, j: int| 0 <= i && j == i + 1 && j < rest.len() implies (
    #[trigger] rest[i]).end == (#[trigger] rest[j]).begin by {
        assert(rest[i] == segs[i]);
        assert(rest[j] == segs[j]);
    }
    if rest.len() > 0 {
        assert(rest[0] == segs[0]);
        assert(rest.last() == segs[segs.len() - 2]);
        assert(segs[segs.len() - 2].end == segs[segs.len() - 1].begin);
    }
}

/// A segmentation with one more segment behind it is a segmentation of the
/// bytes up to the end of that segment, and takes the bits of both.
pub proof fn lemma_segmentation_push(
    data: Seq<u8>,
    segs: Seq<Segment>,
    seg: Segment,
    version: Version,
)
    requires
        is_segmentation(data, segs, seg.begin as int),
        seg.begin < seg.end <= data.len(),
        mode_accepts(seg.mode, data.subrange(seg.begin as int, seg.end as int)),
    ensures
        is_segmentation(data, segs.push(seg), seg.end as int),
        total_len(segs.push(seg), version) == total_len(segs, version) + seg.spec_encoded_len(
            version,
        ),
{
    let all = segs.push(seg);
    assert(all.drop_last() =~= segs);
    assert(all.last() == seg);
    assert forall|i: int| 0 <= i < all.len() implies (#[trigger] all[i]).begin < all[i].end
        && mode_accepts(all[i].mode, data.subrange(all[i].begin as int, all[i].end as int)) by {
        if i < segs.len() {
            assert(all[i] == segs[i]);
        }
    }
    assert forall|i: int, j: int| 0 <= i && j == i + 1 && j < all.len() implies (
    #[trigger] all[i]).end == (#[trigger] all[j]).begin by {
        assert(all[i] == segs[i]);
        if j < segs.len() {
            assert(all[j] == segs[j]);
        } else {
            assert(segs.last() == segs[i]);
        }
    }
    if segs.len() > 0 {
        assert(all[0] == segs[0]);
    }
}

/// Every segment of a segmentation lies in the bytes that it cuts.
pub proof fn lemma_segments_in_range(data: Seq<u8>, segs: Seq<Segment>, end: int)
    requires
        is_segmentation(data, segs, end),
    ensures
        forall|i: int| 0 <= i < segs.len() ==> (#[trigger] segs[i]).begin < segs[i].end <= end,
    decreases segs.len(),
{
    if segs.len() > 0 {
        lemma_segmentation_drop_last(data, segs, end);
        let rest = segs.drop_last();
        lemma_segments_in_range(data, rest, segs.last().begin as int);
        assert forall|i: int| 0 <= i < segs.len() implies (#[trigger] segs[i]).begin
            < segs[i].end <= end by {
            if i < rest.len() {
                assert(segs[i] == rest[i]);
            }
        }
    }
}

/// The versions of a QR code fall into three classes that differ in the
/// number of bits of the character counts.
pub open spec fn version_class(v: int) -> int {
    if v <= 9 {
        0
    } else if v <= 26 {
        1
    } else {
        2
    }
}

/// In two QR code versions of one class a list of segments takes the same
/// number of bits.
pub proof fn lemma_total_len_same_class(segs: Seq<Segment>, a: i16, b: i16)
    requires
        1 <= a <= 40,
        1 <= b <= 40,
        version_class(a as int) == version_class(b as int),
    ensures
        total_len(segs, Version::Normal(a)) == total_len(segs, Version::Normal(b)),
    decreases segs.len(),
{
    if segs.len() > 0 {
        lemma_total_len_same_class(segs.drop_last(), a, b);
    }
}

/// In two QR code versions of one class the same last segments, the same
/// least costs and the same segmentation are chosen.
pub proof fn lemma_last_segment_same_class(
    data: Seq<u8>,
    a: i16,
    b: i16,
    costs: Seq<int>,
    i: int,
    j: int,
)
    requires
        1 <= a <= 40,
        1 <= b <= 40,
        version_class(a as int) == version_class(b as int),
    ensures
        last_segment(data, Version::Normal(a), costs, i, j) == last_segment(
            data,
            Version::Normal(b),
            costs,
            i,
            j,
        ),
    decreases i - j,
{
    if j < i {
        lemma_last_segment_same_class(data, a, b, costs, i, j + 1);
    }
}

/// In two QR code versions of one class the least costs are the same.
pub proof fn lemma_least_costs_same_class(data: Seq<u8>, a: i16, b: i16, k: int)
    requires
        1 <= a <= 40,
        1 <= b <= 40,
        version_class(a as int) == version_class(b as int),
    ensures
        least_costs(data, Version::Normal(a), k) == least_costs(data, Version::Normal(b), k),
    decreases k,
{
    if k > 0 {
        lemma_least_costs_same_class(data, a, b, k - 1);
        lemma_last_segment_same_class(
            data,
            a,
            b,
            least_costs(data, Version::Normal(a), k - 1),
            k,
            0,
        );
    }
}

/// In two QR code versions of one class the same segmentation is chosen.
pub proof fn lemma_chosen_same_class(data: Seq<u8>, a: i16, b: i16, k: int)
    requires
        1 <= a <= 40,
        1 <= b <= 40,
        version_class(a as int) == version_class(b as int),
    ensures
        chosen_segments(data, Version::Normal(a), k) == chosen_segments(
            data,
            Version::Normal(b),
            k,
        ),
    decreases k,
{
    if k > 0 {
        lemma_least_costs_same_class(data, a, b, k - 1);
        let costs = least_costs(data, Version::Normal(a), k - 1);
        lemma_last_segment_same_class(data, a, b, costs, k, 0);
        match last_segment(data, Version::Normal(a), costs, k, 0) {
            Some(s) => {
                if 0 <= s.start < k {
                    lemma_chosen_same_class(data, a, b, s.start);
                }
            },
            None => {},
        }
    }
}

/// A byte takes at least three bits in every mode, so a segmentation takes
/// at least three bits for each byte that it covers.
pub proof fn lemma_total_len_lower_bound(
    data: Seq<u8>,
    segs: Seq<Segment>,
    end: int,
    version: Version,
)
    requires
        is_segmentation(data, segs, end),
        version is Micro ==> version.is_valid(),
    ensures
        total_len(segs, version) >= 3 * end,
    decreases segs.len(),
{
    if segs.len() > 0 {
        let last = segs.last();
        lemma_segmentation_drop_last(data, segs, end);
        lemma_total_len_lower_bound(data, segs.drop_last(), last.begin as int, version);
        lemma_header_bound(version, last.mode);
        let bytes = last.end - last.begin;
        assert(data.subrange(last.begin as int, last.end as int).len() == bytes);
    }
}

//------------------------------------------------------------------------------
// How the character sets grow with the data
/// The numeric and the alphanumeric mode can hold a piece of data where they
/// can hold its first byte and the rest.
pub proof fn lemma_accepts_front(mode: Mode, data: Seq<u8>, j: int, i: int)
    requires
        0 <= j < i <= data.len(),
        mode == Mode::Numeric || mode == Mode::Alphanumeric,
    ensures
        mode_accepts(mode, data.subrange(j, i)) <==> (if mode == Mode::Numeric {
            is_digit(data[j])
        } else {
            alphanumeric_value(data[j]).is_some()
        }) && mode_accepts(mode, data.subrange(j + 1, i)),
{
    let whole = data.subrange(j, i);
    let rest = data.subrange(j + 1, i);
    assert(whole[0] == data[j]);
    assert forall|t: int| 0 <= t < rest.len() implies #[trigger] rest[t] == whole[t + 1] by {}
    if mode_accepts(mode, whole) {
        assert forall|t: int| 0 <= t < rest.len() implies (if mode == Mode::Numeric {
            is_digit(#[trigger] rest[t])
        } else {
            alphanumeric_value(rest[t]).is_some()
        }) by {
            assert(rest[t] == whole[t + 1]);
        }
    }
    if mode_accepts(mode, rest) && (if mode == Mode::Numeric {
        is_digit(data[j])
    } else {
        alphanumeric_value(data[j]).is_some()
    }) {
        assert forall|t: int| 0 <= t < whole.len() implies (if mode == Mode::Numeric {
            is_digit(#[trigger] whole[t])
        } else {
            alphanumeric_value(whole[t]).is_some()
        }) by {
            if t > 0 {
                assert(whole[t] == rest[t - 1]);
            }
        }
    }
}

/// The Kanji mode can hold a piece of data where its first two bytes are a
/// double-byte character and the mode can hold the rest; it cannot hold a
/// single byte.
pub proof fn lemma_accepts_kanji_front(data: Seq<u8>, j: int, i: int)
    requires
        0 <= j < i <= data.len(),
    ensures
        mode_accepts(Mode::Kanji, data.subrange(j, i)) <==> j + 2 <= i && is_kanji_pair(
            data[j],
            data[j + 1],
        ) && mode_accepts(Mode::Kanji, data.subrange(j + 2, i)),
{
    let whole = data.subrange(j, i);
    if j + 2 <= i {
        let rest = data.subrange(j + 2, i);
        assert(whole[0] == data[j]);
        assert(whole[1] == data[j + 1]);
        if mode_accepts(Mode::Kanji, whole) {
            assert(is_kanji_pair(whole[2 * 0int], whole[2 * 0int + 1]));
            assert forall|k: int| 0 <= k < rest.len() / 2 implies is_kanji_pair(
                #[trigger] rest[2 * k],
                rest[2 * k + 1],
            ) by {
                assert(is_kanji_pair(whole[2 * (k + 1)], whole[2 * (k + 1) + 1]));
                assert(rest[2 * k] == whole[2 * (k + 1)]);
                assert(rest[2 * k + 1] == whole[2 * (k + 1) + 1]);
            }
        }
        if is_kanji_pair(data[j], data[j + 1]) && mode_accepts(Mode::Kanji, rest) {
            assert forall|k: int| 0 <= k < whole.len() / 2 implies is_kanji_pair(
                #[trigger] whole[2 * k],
                whole[2 * k + 1],
            ) by {
                if k > 0 {
                    assert(is_kanji_pair(rest[2 * (k - 1)], rest[2 * (k - 1) + 1]));
                    assert(whole[2 * k] == rest[2 * (k - 1)]);
                    assert(whole[2 * k + 1] == rest[2 * (k - 1) + 1]);
                }
            }
        }
    }
}

//------------------------------------------------------------------------------
// Optimizer
/// A last segment for a piece of data: where it starts, its mode, and the
/// number of bits of the cheapest segmentation that ends with it.
pub struct LastSegment {
    pub cost: int,
    pub start: int,
    pub mode: Mode,
}

/// The last segment that starts at `j` in a mode, where `costs` holds the
/// least number of bits for every shorter piece of the data.
pub open spec fn last_segment_at(
    version: Version,
    costs: Seq<int>,
    i: int,
    j: int,
    mode: Mode,
) -> LastSegment {
    LastSegment {
        cost: costs[j] + segment_len(version, mode, char_count(mode, i - j)),
        start: j,
        mode: mode,
    }
}

/// The choice between a last segment chosen before and one more: the new
/// one wins only if its mode can hold the bytes and it takes fewer bits.
pub open spec fn prefer(
    choice: Option<LastSegment>,
    candidate: LastSegment,
    accepted: bool,
) -> Option<LastSegment> {
    if accepted && (choice is None || candidate.cost < choice->Some_0.cost) {
        Some(candidate)
    } else {
        choice
    }
}

/// The last segment that is chosen for the first `i` bytes among those that
/// start at `j` or later. Of two that take the same number of bits the
/// shorter one is chosen, and of two of the same length the one in the
/// narrower mode: the modes are tried in the order numeric, alphanumeric,
/// Kanji, byte.
pub open spec fn last_segment(
    data: Seq<u8>,
    version: Version,
    costs: Seq<int>,
    i: int,
    j: int,
) -> Option<LastSegment>
    decreases i - j,
{
    if j >= i {
        None
    } else {
        let later = last_segment(data, version, costs, i, j + 1);
        let piece = data.subrange(j, i);
        let c1 = prefer(
            later,
            last_segment_at(version, costs, i, j, Mode::Numeric),
            mode_accepts(Mode::Numeric, piece),
        );
        let c2 = prefer(
            c1,
            last_segment_at(version, costs, i, j, Mode::Alphanumeric),
            mode_accepts(Mode::Alphanumeric, piece),
        );
        let c3 = prefer(
            c2,
            last_segment_at(version, costs, i, j, Mode::Kanji),
            mode_accepts(Mode::Kanji, piece),
        );
        prefer(c3, last_segment_at(version, costs, i, j, Mode::Byte), true)
    }
}

/// The least numbers of bits that the first 0, 1, ... and `k` bytes of the
/// data take.
pub open spec fn least_costs(data: Seq<u8>, version: Version, k: int) -> Seq<int>
    decreases k,
{
    if k <= 0 {
        seq![0int]
    } else {
        let before = least_costs(data, version, k - 1);
        before.push(
            match last_segment(data, version, before, k, 0) {
                Some(s) => s.cost,
                None => 0,
            },
        )
    }
}

/// The segmentation that is chosen for the first `k` bytes of the data: the
/// last segment that is chosen for them, behind the segmentation that is
/// chosen for the bytes before it.
pub open spec fn chosen_segments(data: Seq<u8>, version: Version, k: int) -> Seq<Segment>
    decreases k,
{
    if k <= 0 {
        Seq::empty()
    } else {
        match last_segment(data, version, least_costs(data, version, k - 1), k, 0) {
            Some(s) => if 0 <= s.start < k {
                chosen_segments(data, version, s.start).push(
                    Segment { mode: s.mode, begin: s.start as usize, end: k as usize },
                )
            } else {
                Seq::empty()
            },
            None => Seq::empty(),
        }
    }
}

/// What the optimizer knows of the first `k` bytes: `cost` is the number of
/// bits of the segmentation `found`, and no segmentation of these bytes takes
/// fewer.
pub open spec fn is_best(
    data: Seq<u8>,
    version: Version,
    cost: int,
    found: Seq<Segment>,
    k: int,
) -> bool {
    &&& is_segmentation(data, found, k)
    &&& total_len(found, version) == cost
    &&& 0 <= cost <= 28 * k
    &&& forall|s: Seq<Segment>| #[trigger]
        is_segmentation(data, s, k) ==> total_len(s, version) >= cost
}

/// Cuts the data into the segments that take the fewest bits in the version.
///
/// For every prefix of the data the optimizer finds the cheapest
/// segmentation: its last segment starts somewhere in the prefix and is in a
/// mode that can hold its bytes, and what is in front of it is the cheapest
/// segmentation of the shorter prefix. Of two candidates of equal cost the
/// one with the shorter last segment wins, and of two modes the narrower.
pub fn optimal_segments(data: &[u8], version: Version) -> (segs: Vec<Segment>)
    requires
        version is Micro ==> version.is_valid(),
    ensures
        segs@ == chosen_segments(data@, version, data.len() as int),
        is_optimal(data@, segs@, version),
{
    optimize(data, version).0
}

/// The last segment that is chosen among those that start at `j` or later
/// is one of them, and none of them gives a segmentation of fewer bits.
pub proof fn lemma_last_segment(data: Seq<u8>, version: Version, costs: Seq<int>, i: int, j: int)
    requires
        0 <= j < i <= data.len(),
    ensures
        last_segment(data, version, costs, i, j) is Some,
        j <= last_segment(data, version, costs, i, j)->Some_0.start < i,
        last_segment(data, version, costs, i, j)->Some_0 == last_segment_at(
            version,
            costs,
            i,
            last_segment(data, version, costs, i, j)->Some_0.start,
            last_segment(data, version, costs, i, j)->Some_0.mode,
        ),
        mode_accepts(
            last_segment(data, version, costs, i, j)->Some_0.mode,
            data.subrange(last_segment(data, version, costs, i, j)->Some_0.start, i),
        ),
        forall|jj: int, m: Mode|
            j <= jj < i && #[trigger] mode_accepts(m, data.subrange(jj, i)) ==> last_segment(
                data,
                version,
                costs,
                i,
                j,
            )->Some_0.cost <= last_segment_at(version, costs, i, jj, m).cost,
    decreases i - j,
{
    if j + 1 < i {
        lemma_last_segment(data, version, costs, i, j + 1);
    }
    let later = last_segment(data, version, costs, i, j + 1);
    let piece = data.subrange(j, i);
    let c1 = prefer(
        later,
        last_segment_at(version, costs, i, j, Mode::Numeric),
        mode_accepts(Mode::Numeric, piece),
    );
    let c2 = prefer(
        c1,
        last_segment_at(version, costs, i, j, Mode::Alphanumeric),
        mode_accepts(Mode::Alphanumeric, piece),
    );
    let c3 = prefer(
        c2,
        last_segment_at(version, costs, i, j, Mode::Kanji),
        mode_accepts(Mode::Kanji, piece),
    );
    let c4 = prefer(c3, last_segment_at(version, costs, i, j, Mode::Byte), true);
    assert(last_segment(data, version, costs, i, j) == c4);
    assert forall|jj: int, m: Mode|
        j <= jj < i && #[trigger] mode_accepts(m, data.subrange(jj, i)) implies c4->Some_0.cost
        <= last_segment_at(version, costs, i, jj, m).cost by {
        if jj == j {
            match m {
                Mode::Numeric => {},
                Mode::Alphanumeric => {},
                Mode::Kanji => {},
                Mode::Byte => {},
            }
        }
    }
}

/// A last segment that the optimizer has chosen, if it has chosen one.
struct Choice {
    found: bool,
    cost: u128,
    start: usize,
    mode: Mode,
}

impl Choice {
    /// The last segment, if there is one.
    spec fn chosen(self) -> Option<LastSegment> {
        if self.found {
            Some(LastSegment { cost: self.cost as int, start: self.start as int, mode: self.mode })
        } else {
            None
        }
    }
}

/// Keeps the last segment chosen before, or takes one more in its place if
/// its mode can hold the bytes and it takes fewer bits.
fn prefer_choice(choice: Choice, cost: u128, start: usize, mode: Mode, accepted: bool) -> (r:
    Choice)
    ensures
        r.chosen() == prefer(
            choice.chosen(),
            LastSegment { cost: cost as int, start: start as int, mode: mode },
            accepted,
        ),
{
    if accepted && (!choice.found || cost < choice.cost) {
        Choice { found: true, cost, start, mode }
    } else {
        choice
    }
}

/// Chooses the last segment for the first `i` bytes of the data, where
/// `best` holds the least number of bits for every shorter piece.
#[verifier::rlimit(60)]
fn choose_last_segment(data: &[u8], version: Version, best: &Vec<u128>, i: usize) -> (r: Choice)
    requires
        version is Micro ==> version.is_valid(),
        1 <= i <= data.len(),
        best.len() == i,
        forall|k: int| 0 <= k < i ==> 0 <= #[trigger] best[k] <= 28 * k,
    ensures
        r.chosen() == last_segment(
            data@,
            version,
            Seq::new(i as nat, |k: int| best[k] as int),
            i as int,
            0,
        ),
{
    let ghost costs = Seq::new(i as nat, |k: int| best[k] as int);
    let mut cur = Choice { found: false, cost: 0, start: 0, mode: Mode::Byte };
    let mut num_ok = true;
    let mut alnum_ok = true;
    let mut kan0 = true;
    let mut kan1 = false;
    let mut j: usize = i;
    proof {
        assert(data@.subrange(i as int, i as int).len() == 0);
    }
    while j > 0
        invariant
            j <= i,
            1 <= i <= data.len(),
            version is Micro ==> version.is_valid(),
            best.len() == i,
            forall|k: int| 0 <= k < i ==> 0 <= #[trigger] best[k] <= 28 * k,
            costs == Seq::new(i as nat, |k: int| best[k] as int),
            num_ok == mode_accepts(Mode::Numeric, data@.subrange(j as int, i as int)),
            alnum_ok == mode_accepts(Mode::Alphanumeric, data@.subrange(j as int, i as int)),
            kan0 == mode_accepts(Mode::Kanji, data@.subrange(j as int, i as int)),
            kan1 == (j + 1 <= i && mode_accepts(Mode::Kanji, data@.subrange(j + 1, i as int))),
            cur.chosen() == last_segment(data@, version, costs, i as int, j as int),
        decreases j,
    {
        j -= 1;
        let b = data[j];
        proof {
            lemma_accepts_front(Mode::Numeric, data@, j as int, i as int);
            lemma_accepts_front(Mode::Alphanumeric, data@, j as int, i as int);
            lemma_accepts_kanji_front(data@, j as int, i as int);
        }
        num_ok = num_ok && digit(b);
        alnum_ok = alnum_ok && alphanumeric_digit(b).is_some();
        let kan = i - j >= 2 && kan1 && kanji_pair(b, data[j + 1]);
        kan1 = kan0;
        kan0 = kan;
        let len = i - j;
        let base = best[j];
        assert(costs[j as int] == base);
        let c1 = prefer_choice(
            cur,
            base + segment_cost(version, Mode::Numeric, len),
            j,
            Mode::Numeric,
            num_ok,
        );
        let c2 = prefer_choice(
            c1,
            base + segment_cost(version, Mode::Alphanumeric, len),
            j,
            Mode::Alphanumeric,
            alnum_ok,
        );
        let c3 = prefer_choice(
            c2,
            base + segment_cost(version, Mode::Kanji, len),
            j,
            Mode::Kanji,
            kan,
        );
        cur = prefer_choice(c3, base + segment_cost(version, Mode::Byte, len), j, Mode::Byte, true);
    }
    cur
}

/// Cuts the data into the segments that take the fewest bits in the version,
/// and tells how many bits they take.
#[verifier::rlimit(60)]
pub fn optimize(data: &[u8], version: Version) -> (r: (Vec<Segment>, u128))
    requires
        version is Micro ==> version.is_valid(),
    ensures
        r.0@ == chosen_segments(data@, version, data.len() as int),
        is_optimal(data@, r.0@, version),
        r.1 == total_len(r.0@, version),
        r.1 <= 28 * data.len(),
{
    let n = data.len();
    let mut best: Vec<u128> = Vec::new();
    let mut starts: Vec<usize> = Vec::new();
    let mut modes: Vec<Mode> = Vec::new();
    best.push(0);
    starts.push(0);
    modes.push(Mode::Byte);
    let ghost mut wit: Seq<Seq<Segment>> = seq![Seq::<Segment>::empty()];
    let mut done: usize = 0;
    while done < n
        invariant
            done <= n,
            n == data.len(),
            version is Micro ==> version.is_valid(),
            best.len() == done + 1,
            starts.len() == done + 1,
            modes.len() == done + 1,
            wit.len() == done + 1,
            wit[0] == Seq::<Segment>::empty(),
            least_costs(data@, version, done as int) =~= Seq::new(
                (done + 1) as nat,
                |k: int| best[k] as int,
            ),
            forall|k: int|
                0 <= k <= done ==> #[trigger] wit[k] == chosen_segments(data@, version, k),
            forall|k: int|
                0 <= k <= done ==> is_best(data@, version, #[trigger] best[k] as int, wit[k], k),
            forall|k: int|
                1 <= k <= done ==> (#[trigger] starts[k]) < k && wit[k] == wit[starts[k] as int].push(
                    Segment { mode: modes[k], begin: starts[k], end: k as usize },
                ),
        decreases n - done,
    {
        let i = done + 1;
        let ghost costs = Seq::new(i as nat, |k: int| best[k] as int);
        proof {
            assert forall|k: int| 0 <= k < i implies 0 <= #[trigger] best[k] <= 28 * k by {
                assert(is_best(data@, version, best[k] as int, wit[k], k));
            }
        }
        let cur = choose_last_segment(data, version, &best, i);
        proof {
            lemma_last_segment(data@, version, costs, i as int, 0);
        }
        let seg = Segment { mode: cur.mode, begin: cur.start, end: i };
        proof {
            let chosen = last_segment(data@, version, costs, i as int, 0)->Some_0;
            assert(cur.chosen() == Some(chosen));
            let w = wit[cur.start as int];
            assert(is_best(
                data@,
                version,
                best[cur.start as int] as int,
                wit[cur.start as int],
                cur.start as int,
            ));
            lemma_segmentation_push(data@, w, seg, version);
            let found = w.push(seg);
            // The byte mode with the one byte before the end bounds the cost.
            lemma_header_bound(version, Mode::Byte);
            assert(mode_accepts(Mode::Byte, data@.subrange(i - 1, i as int)));
            assert(is_best(data@, version, best[i - 1] as int, wit[i - 1], i - 1));
            assert(chosen.cost <= last_segment_at(version, costs, i as int, i - 1, Mode::Byte).cost);
            assert forall|s: Seq<Segment>| #[trigger]
                is_segmentation(data@, s, i as int) implies total_len(s, version) >= cur.cost by {
                lemma_segmentation_drop_last(data@, s, i as int);
                let last = s.last();
                let jj = last.begin as int;
                assert(is_best(data@, version, best[jj] as int, wit[jj], jj));
                assert(mode_accepts(last.mode, data@.subrange(jj, i as int)));
                assert(chosen.cost <= last_segment_at(version, costs, i as int, jj, last.mode).cost);
            }
            wit = wit.push(found);
            assert(found == chosen_segments(data@, version, i as int));
            assert(least_costs(data@, version, i as int) =~= costs.push(cur.cost as int));
        }
        best.push(cur.cost);
        starts.push(cur.start);
        modes.push(cur.mode);
        done += 1;
    }
    // Walk back from the end of the data along the last segments.
    let mut segs: Vec<Segment> = Vec::new();
    let mut k: usize = n;
    while k > 0
        invariant
            k <= n,
            best.len() == n + 1,
            starts.len() == n + 1,
            modes.len() == n + 1,
            wit.len() == n + 1,
            wit[0] == Seq::<Segment>::empty(),
            forall|t: int|
                1 <= t <= n ==> (#[trigger] starts[t]) < t && wit[t] == wit[starts[t] as int].push(
                    Segment { mode: modes[t], begin: starts[t], end: t as usize },
                ),
            wit[n as int] =~= wit[k as int] + segs@,
        decreases k,
    {
        let seg = Segment { mode: modes[k], begin: starts[k], end: k };
        let ghost tail = segs@;
        assert(starts[k as int] < k);
        segs.insert(0, seg);
        assert(segs@ =~= seq![seg] + tail);
        assert(wit[k as int] + tail =~= wit[starts[k as int] as int] + segs@);
        k = starts[k];
    }
    proof {
        assert(segs@ =~= wit[n as int]);
        assert(is_best(data@, version, best[n as int] as int, wit[n as int], n as int));
        assert(wit[n as int] == chosen_segments(data@, version, n as int));
    }
    (segs, best[n])
}

/// Computes the total encoded length of all segments.
pub fn total_encoded_len(segments: &[Segment], version: Version) -> (r: usize)
    requires
        version is Micro ==> version.is_valid(),
        forall|i: int|
            0 <= i < segments.len() ==> (#[trigger] segments[i]).begin <= segments[i].end && (
            segments[i].end - segments[i].begin) * 13 + 22 <= usize::MAX,
        total_len(segments@, version) <= usize::MAX,
    ensures
        r == total_len(segments@, version),
{
    let mut sum: usize = 0;
    let mut i: usize = 0;
    assert(segments@.take(0) =~= Seq::<Segment>::empty());
    while i < segments.len()
        invariant
            i <= segments.len(),
            version is Micro ==> version.is_valid(),
            forall|t: int|
                0 <= t < segments.len() ==> (#[trigger] segments[t]).begin <= segments[t].end && (
                segments[t].end - segments[t].begin) * 13 + 22 <= usize::MAX,
            total_len(segments@, version) <= usize::MAX,
            sum == total_len(segments@.take(i as int), version),
        decreases segments.len() - i,
    {
        let len = segments[i].encoded_len(version);
        proof {
            assert(segments@.take(i + 1).drop_last() =~= segments@.take(i as int));
            assert(segments@.take(i + 1).last() == segments[i as int]);
            lemma_total_len_grows(segments@, version, i + 1);
        }
        sum = sum + len;
        i += 1;
    }
    assert(segments@.take(segments.len() as int) =~= segments@);
    sum
}

/// A part of a list of segments takes no more bits than all of it, where no
/// segment takes a negative number of bits.
pub proof fn lemma_total_len_grows(segs: Seq<Segment>, version: Version, k: int)
    requires
        0 <= k <= segs.len(),
        version is Micro ==> version.is_valid(),
        forall|i: int| 0 <= i < segs.len() ==> (#[trigger] segs[i]).begin <= segs[i].end,
    ensures
        0 <= total_len(segs.take(k), version) <= total_len(segs, version),
    decreases segs.len() - k,
{
    if k == segs.len() {
        assert(segs.take(k) =~= segs);
        lemma_total_len_nonnegative(segs, version);
    } else {
        lemma_total_len_grows(segs, version, k + 1);
        assert(segs.take(k + 1).drop_last() =~= segs.take(k));
        let last = segs.take(k + 1).last();
        assert(last == segs[k]);
        lemma_header_bound(version, last.mode);
        lemma_total_len_nonnegative(segs.take(k), version);
    }
}

/// A list of segments takes no negative number of bits.
pub proof fn lemma_total_len_nonnegative(segs: Seq<Segment>, version: Version)
    requires
        version is Micro ==> version.is_valid(),
        forall|i: int| 0 <= i < segs.len() ==> (#[trigger] segs[i]).begin <= segs[i].end,
    ensures
        0 <= total_len(segs, version),
    decreases segs.len(),
{
    if segs.len() > 0 {
        let rest = segs.drop_last();
        assert forall|i: int| 0 <= i < rest.len() implies (#[trigger] rest[i]).begin
            <= rest[i].end by {
            assert(rest[i] == segs[i]);
        }
        lemma_total_len_nonnegative(rest, version);
        let last = segs.last();
        assert(last == segs[segs.len() - 1]);
        lemma_header_bound(version, last.mode);
    }
}

//------------------------------------------------------------------------------
// Digits
/// The character count of the numeric mode has at most one bit more than
/// that of the alphanumeric mode and at most two more than that of the byte
/// mode, and the header of a numeric segment is not empty.
pub proof fn lemma_length_bits_order(version: Version)
    requires
        version is Micro ==> version.is_valid(),
    ensures
        Mode::Numeric.spec_length_bits_count(version) <= Mode::Alphanumeric.spec_length_bits_count(
            version,
        ) + 1,
        Mode::Numeric.spec_length_bits_count(version) <= Mode::Byte.spec_length_bits_count(version)
            + 2,
        version.spec_mode_bits_count() + Mode::Numeric.spec_length_bits_count(version) >= 1,
{
    if version is RectMicro {
        let row = match version.spec_rect_micro_index() {
            Some(i) => i,
            None => 31,
        };
        assert(0 <= row < 32);
        let r = RMQR_LENGTH_BITS_COUNT[row];
        assert(r[0] <= r[1] + 1 && r[0] <= r[2] + 2 && r[0] >= 1);
    }
}

/// A segment of digits takes the fewest bits in the numeric mode, and more
/// in every other mode that can hold it.
pub proof fn lemma_mode_cost_on_digits(version: Version, mode: Mode, digits: Seq<u8>)
    requires
        version is Micro ==> version.is_valid(),
        digits.len() >= 1,
        mode_accepts(Mode::Numeric, digits),
        mode_accepts(mode, digits),
    ensures
        segment_len(version, mode, char_count(mode, digits.len() as int)) >= segment_len(
            version,
            Mode::Numeric,
            digits.len() as int,
        ),
        mode != Mode::Numeric ==> segment_len(version, mode, char_count(mode, digits.len() as int))
            > segment_len(version, Mode::Numeric, digits.len() as int),
{
    lemma_length_bits_order(version);
    if mode == Mode::Kanji {
        assert(digits.len() >= 2);
        assert(is_kanji_pair(digits[2 * 0int], digits[2 * 0int + 1]));
        assert(is_digit(digits[0]));
    }
}

/// Of the segmentations of data that holds digits only, the single numeric
/// segment takes the fewest bits, and every other one takes more.
pub proof fn lemma_digits_cost(data: Seq<u8>, segs: Seq<Segment>, end: int, version: Version)
    requires
        version is Micro ==> version.is_valid(),
        mode_accepts(Mode::Numeric, data),
        is_segmentation(data, segs, end),
        1 <= end <= usize::MAX,
    ensures
        total_len(segs, version) >= segment_len(version, Mode::Numeric, end),
        total_len(segs, version) == segment_len(version, Mode::Numeric, end) ==> segs =~= seq![
            Segment { mode: Mode::Numeric, begin: 0, end: end as usize },
        ],
    decreases segs.len(),
{
    lemma_segmentation_drop_last(data, segs, end);
    let last = segs.last();
    let rest = segs.drop_last();
    let j = last.begin as int;
    let sub = data.subrange(j, end);
    assert forall|t: int| 0 <= t < sub.len() implies is_digit(#[trigger] sub[t]) by {
        assert(sub[t] == data[j + t]);
    }
    lemma_mode_cost_on_digits(version, last.mode, sub);
    lemma_length_bits_order(version);
    if j == 0 {
        if rest.len() > 0 {
            assert(rest[rest.len() - 1].begin < rest[rest.len() - 1].end);
        }
        assert(rest.len() == 0);
        assert(segs =~= seq![last]);
        assert(total_len(rest, version) == 0);
    } else {
        lemma_digits_cost(data, rest, j, version);
    }
}

/// Data that holds digits only is encoded as a single numeric segment.
pub proof fn lemma_digits_single_segment(data: Seq<u8>, segs: Seq<Segment>, version: Version)
    requires
        version is Micro ==> version.is_valid(),
        mode_accepts(Mode::Numeric, data),
        1 <= data.len() <= usize::MAX,
        is_optimal(data, segs, version),
    ensures
        segs =~= seq![Segment { mode: Mode::Numeric, begin: 0, end: data.len() as usize }],
        total_len(segs, version) == segment_len(version, Mode::Numeric, data.len() as int),
{
    let n = data.len() as int;
    let single = Segment { mode: Mode::Numeric, begin: 0, end: n as usize };
    assert(data.subrange(0, n) =~= data);
    lemma_segmentation_push(data, Seq::<Segment>::empty(), single, version);
    let one = Seq::<Segment>::empty().push(single);
    assert(is_segmentation(data, one, n));
    assert(total_len(Seq::<Segment>::empty(), version) == 0);
    lemma_digits_cost(data, segs, n, version);
}

} // verus!

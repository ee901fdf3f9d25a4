//! Search ranges: a start and an end identifier, back to back; and lists of
//! them, which run to the end of the buffer.
use vstd::prelude::*;

use crate::encodings::id::{id_bytes, id_canonical, id_parse, id_size, id_wf, lemma_id_round_trip, IdView, ID};
use crate::wire::{tail, ByteOrder, Error};

verus! {

/// A range of identifiers to search, from `start` to `end`.
#[derive(Clone, Debug, PartialEq, Eq, PartialOrd, Hash)]
pub struct SearchRange {
    /// starting identifier
    pub start: ID,
    /// ending identifier
    pub end: ID,
}

/// What a search range holds.
pub struct SearchRangeView {
    pub start: IdView,
    pub end: IdView,
}

impl View for SearchRange {
    type V = SearchRangeView;

    open spec fn view(&self) -> SearchRangeView {
        SearchRangeView { start: self.start@, end: self.end@ }
    }
}

/// Both identifiers fit their count byte.
pub open spec fn range_wf(r: SearchRangeView) -> bool {
    id_wf(r.start) && id_wf(r.end)
}

/// Both identifiers were built from their sub-identifiers alone.
pub open spec fn range_canonical(r: SearchRangeView) -> bool {
    id_canonical(r.start) && id_canonical(r.end)
}

/// Wire form: the two identifiers concatenated.
pub open spec fn range_bytes(r: SearchRangeView, bo: ByteOrder) -> Seq<u8> {
    id_bytes(r.start, bo) + id_bytes(r.end, bo)
}

/// The number of bytes the range took on the wire.
pub open spec fn range_size(r: SearchRangeView) -> nat {
    id_size(r.start) + id_size(r.end)
}

/// The range at the start of `b`, if the bytes hold one.
#[verifier::opaque]
pub open spec fn range_parse(b: Seq<u8>, bo: ByteOrder) -> Option<SearchRangeView> {
    match id_parse(b, bo) {
        None => None,
        Some(start) => match id_parse(b.skip(id_size(start) as int), bo) {
            None => None,
            Some(end) => Some(SearchRangeView { start, end }),
        },
    }
}

/// Wire form of a list of ranges: their wire forms one after another.
pub open spec fn ranges_bytes(s: Seq<SearchRangeView>, bo: ByteOrder) -> Seq<u8> {
    s.map_values(|r: SearchRangeView| range_bytes(r, bo)).flatten()
}

/// The ranges that fill `b` exactly, if the bytes hold such a list.
pub open spec fn ranges_parse(b: Seq<u8>, bo: ByteOrder) -> Option<Seq<SearchRangeView>>
    decreases b.len(),
{
    if b.len() == 0 {
        Some(Seq::empty())
    } else {
        match range_parse(b, bo) {
            None => None,
            Some(r) => if range_size(r) > b.len() {
                None
            } else {
                match ranges_parse(b.skip(range_size(r) as int), bo) {
                    None => None,
                    Some(rest) => Some(seq![r] + rest),
                }
            },
        }
    }
}

/// A decoded identifier lies within the bytes it was read from.
pub proof fn lemma_id_parse_size(b: Seq<u8>, bo: ByteOrder)
    ensures
        id_parse(b, bo) matches Some(v) ==> id_size(v) <= b.len() && id_wf(v),
{
}

/// A decoded range lies within the bytes it was read from.
pub proof fn lemma_range_parse_size(b: Seq<u8>, bo: ByteOrder)
    ensures
        range_parse(b, bo) matches Some(r) ==> range_size(r) <= b.len() && range_size(r) >= 8
            && range_wf(r),
{
    reveal(range_parse);
    lemma_id_parse_size(b, bo);
    if let Some(s) = id_parse(b, bo) {
        lemma_id_parse_size(b.skip(id_size(s) as int), bo);
    }
}

/// Decoding the wire form of a range gives it back, whatever follows it.
pub proof fn lemma_range_round_trip(r: SearchRangeView, bo: ByteOrder, rest: Seq<u8>)
    requires
        range_canonical(r),
    ensures
        range_parse(range_bytes(r, bo) + rest, bo) == Some(r),
        range_bytes(r, bo).len() == range_size(r),
{
    reveal(range_parse);
    let b = range_bytes(r, bo) + rest;
    lemma_id_round_trip(r.start, bo, id_bytes(r.end, bo) + rest);
    lemma_id_round_trip(r.end, bo, rest);
    assert(b =~= id_bytes(r.start, bo) + (id_bytes(r.end, bo) + rest));
    assert(b.skip(id_size(r.start) as int) =~= id_bytes(r.end, bo) + rest);
}

/// The wire form of a non-empty list: its first range, then the others.
pub proof fn lemma_ranges_bytes_first(s: Seq<SearchRangeView>, bo: ByteOrder)
    requires
        s.len() > 0,
    ensures
        ranges_bytes(s, bo) == range_bytes(s[0], bo) + ranges_bytes(s.drop_first(), bo),
{
    let f = |r: SearchRangeView| range_bytes(r, bo);
    let m = s.map_values(f);
    assert(m.drop_first() =~= s.drop_first().map_values(f));
    assert(m.flatten() == m.first() + m.drop_first().flatten());
}

/// The wire form of a non-empty list: the others, then its last range.
pub proof fn lemma_ranges_bytes_last(s: Seq<SearchRangeView>, bo: ByteOrder)
    requires
        s.len() > 0,
    ensures
        ranges_bytes(s, bo) == ranges_bytes(s.drop_last(), bo) + range_bytes(s.last(), bo),
{
    let f = |r: SearchRangeView| range_bytes(r, bo);
    let prev = s.drop_last().map_values(f);
    assert(s.map_values(f) =~= prev.push(f(s.last())));
    prev.lemma_flatten_push(f(s.last()));
}

/// One step of list decoding: the first range, then the list after it.
proof fn lemma_ranges_parse_step(b: Seq<u8>, bo: ByteOrder, r: SearchRangeView)
    requires
        b.len() > 0,
        range_parse(b, bo) == Some(r),
        range_size(r) <= b.len(),
    ensures
        ranges_parse(b, bo) == (match ranges_parse(b.skip(range_size(r) as int), bo) {
            None => None,
            Some(rest) => Some(seq![r] + rest),
        }),
{
}

/// Decoding a list of ranges followed by other bytes gives the ranges, then
/// what those bytes decode to; decoding fails exactly when theirs does.
pub proof fn lemma_ranges_parse_prefix(s: Seq<SearchRangeView>, t: Seq<u8>, bo: ByteOrder)
    requires
        forall|i: int| 0 <= i < s.len() ==> range_canonical(#[trigger] s[i]),
    ensures
        ranges_parse(ranges_bytes(s, bo) + t, bo) == (match ranges_parse(t, bo) {
            None => None,
            Some(rest) => Some(s + rest),
        }),
    decreases s.len(),
{
    if s.len() > 0 {
        let tail_seq = s.drop_first();
        let b = ranges_bytes(s, bo) + t;
        lemma_ranges_bytes_first(s, bo);
        let tb = ranges_bytes(tail_seq, bo) + t;
        assert(b =~= range_bytes(s[0], bo) + tb);
        assert(range_canonical(s[0]));
        lemma_range_round_trip(s[0], bo, tb);
        assert forall|i: int| 0 <= i < tail_seq.len() implies range_canonical(#[trigger] tail_seq[i]) by {
            assert(tail_seq[i] == s[i + 1]);
        }
        lemma_ranges_parse_prefix(tail_seq, t, bo);
        assert(b.skip(range_size(s[0]) as int) =~= tb);
        lemma_ranges_parse_step(b, bo, s[0]);
        if let Some(rest) = ranges_parse(t, bo) {
            assert(seq![s[0]] + (tail_seq + rest) =~= s + rest);
        }
    } else {
        assert(ranges_bytes(s, bo) =~= Seq::<u8>::empty());
        assert(ranges_bytes(s, bo) + t =~= t);
        if let Some(rest) = ranges_parse(t, bo) {
            assert(s + rest =~= rest);
        }
    }
}

/// Decoding the wire form of a list of ranges gives back exactly its
/// elements, in order, and stops where the buffer ends.
pub proof fn lemma_ranges_round_trip(s: Seq<SearchRangeView>, bo: ByteOrder)
    requires
        forall|i: int| 0 <= i < s.len() ==> range_canonical(#[trigger] s[i]),
    ensures
        ranges_parse(ranges_bytes(s, bo), bo) == Some(s),
{
    lemma_ranges_parse_prefix(s, Seq::empty(), bo);
    assert(ranges_bytes(s, bo) + Seq::<u8>::empty() =~= ranges_bytes(s, bo));
    assert(s + Seq::<SearchRangeView>::empty() =~= s);
}

/// A list of ranges followed by a range cut off before its end does not
/// decode: the dangling bytes are an error, not a shorter list.
pub proof fn lemma_ranges_dangling(s: Seq<SearchRangeView>, r: SearchRangeView, k: int, bo: ByteOrder)
    requires
        forall|i: int| 0 <= i < s.len() ==> range_canonical(#[trigger] s[i]),
        range_canonical(r),
        0 < k < range_bytes(r, bo).len(),
    ensures
        ranges_parse(ranges_bytes(s, bo) + range_bytes(r, bo).take(k), bo) is None,
{
    lemma_ranges_parse_prefix(s, range_bytes(r, bo).take(k), bo);
    lemma_range_truncated(r, bo, k);
}

/// A range cut off before its end does not decode.
pub proof fn lemma_range_truncated(r: SearchRangeView, bo: ByteOrder, k: int)
    requires
        range_canonical(r),
        0 <= k < range_bytes(r, bo).len(),
    ensures
        range_parse(range_bytes(r, bo).take(k), bo) is None,
{
    reveal(range_parse);
    let sb = id_bytes(r.start, bo);
    let eb = id_bytes(r.end, bo);
    lemma_id_round_trip(r.start, bo, eb);
    lemma_id_round_trip(r.end, bo, Seq::empty());
    let full = sb + eb;
    let b = full.take(k);
    let ns: int = sb.len() as int;
    assert(full.len() == ns + eb.len());
    if k >= 4 {
        assert(b[0] == sb[0]);
        assert(b[0] as int == r.start.sub_ids.len());
    }
    if k >= ns {
        let b2 = b.skip(ns);
        assert(b2.len() == k - ns);
        if k - ns >= 4 {
            assert(b2[0] == full[ns]);
            assert(full[ns] == eb[0]);
            assert(b2[0] as int == r.end.sub_ids.len());
        }
    }
}

impl SearchRange {
    /// Builds a range from its starting and ending identifiers.
    pub fn new(start: ID, end: ID) -> (r: SearchRange)
        ensures
            r@ == (SearchRangeView { start: start@, end: end@ }),
    {
        SearchRange { start, end }
    }

    /// Serializes to bytes.
    pub fn to_bytes(&self, bo: &ByteOrder) -> (r: Vec<u8>)
        ensures
            r@ == range_bytes(self@, *bo),
    {
        let mut result = self.start.to_bytes(bo);
        let mut end = self.end.to_bytes(bo);
        result.append(&mut end);
        result
    }

    /// Deserializes from the start of `b`.
    pub fn from_bytes(b: &[u8], bo: &ByteOrder) -> (r: Result<SearchRange, Error>)
        ensures
            r is Ok <==> range_parse(b@, *bo) is Some,
            r matches Ok(x) ==> x@ == range_parse(b@, *bo).unwrap(),
            r is Err ==> r == Err::<SearchRange, Error>(Error::InvalidData),
    {
        proof {
            reveal(range_parse);
        }
        let start = ID::from_bytes(b, bo)?;
        proof {
            lemma_id_parse_size(b@, *bo);
        }
        let end = ID::from_bytes(tail(b, start.byte_size()), bo)?;
        Ok(SearchRange { start, end })
    }

    /// The number of bytes the range took on the wire.
    pub fn byte_size(&self) -> (r: usize)
        ensures
            r == range_size(self@),
    {
        self.start.byte_size() + self.end.byte_size()
    }
}

/// A list of search ranges.
#[derive(Clone, Debug, PartialEq, Eq, PartialOrd, Hash, Default)]
pub struct SearchRangeList(pub Vec<SearchRange>);

impl View for SearchRangeList {
    type V = Seq<SearchRangeView>;

    open spec fn view(&self) -> Seq<SearchRangeView> {
        self.0@.map_values(|r: SearchRange| r@)
    }
}

impl SearchRangeList {
    /// Serializes the ranges one after another.
    pub fn to_bytes(&self, bo: &ByteOrder) -> (r: Vec<u8>)
        ensures
            r@ == ranges_bytes(self@, *bo),
    {
        let mut result: Vec<u8> = Vec::new();
        let n = self.0.len();
        let mut i: usize = 0;
        assert(ranges_bytes(self@.take(0), *bo) =~= Seq::<u8>::empty());
        while i < n
            invariant
                n == self.0@.len(),
                i <= n,
                result@ == ranges_bytes(self@.take(i as int), *bo),
            decreases n - i,
        {
            let mut bytes = self.0[i].to_bytes(bo);
            result.append(&mut bytes);
            proof {
                let t = self@.take(i + 1);
                lemma_ranges_bytes_last(t, *bo);
                assert(t.drop_last() =~= self@.take(i as int));
            }
            i = i + 1;
        }
        assert(self@.take(n as int) =~= self@);
        result
    }

    /// Deserializes ranges until the buffer is used up; a range that does not
    /// fit in what is left is an error.
    pub fn from_bytes(b: &[u8], bo: &ByteOrder) -> (r: Result<SearchRangeList, Error>)
        ensures
            r is Ok <==> ranges_parse(b@, *bo) is Some,
            r matches Ok(x) ==> x@ == ranges_parse(b@, *bo).unwrap(),
            r is Err ==> r == Err::<SearchRangeList, Error>(Error::InvalidData),
    {
        let mut ranges: Vec<SearchRange> = Vec::new();
        let mut rest = b;
        while rest.len() > 0
            invariant
                ranges_parse(b@, *bo) == (match ranges_parse(rest@, *bo) {
                    None => None,
                    Some(tail_ranges) => Some(ranges@.map_values(|r: SearchRange| r@) + tail_ranges),
                }),
            decreases rest@.len(),
        {
            let sr = SearchRange::from_bytes(rest, bo)?;
            let size = sr.byte_size();
            if size > rest.len() {
                return Err(Error::InvalidData);
            }
            proof {
                lemma_range_parse_size(rest@, *bo);
            }
            let ghost before = ranges@.map_values(|r: SearchRange| r@);
            rest = tail(rest, size);
            ranges.push(sr);
            proof {
                assert(ranges@.map_values(|r: SearchRange| r@) =~= before.push(sr@));
                if let Some(t) = ranges_parse(rest@, *bo) {
                    assert(before + (seq![sr@] + t) =~= before.push(sr@) + t);
                }
            }
        }
        assert(ranges_parse(rest@, *bo) == Some(Seq::<SearchRangeView>::empty()));
        assert(ranges@.map_values(|r: SearchRange| r@) + Seq::<SearchRangeView>::empty()
            =~= ranges@.map_values(|r: SearchRange| r@));
        Ok(SearchRangeList(ranges))
    }

    /// The number of ranges in the list.
    pub fn len(&self) -> (r: usize)
        ensures
            r == self@.len(),
    {
        self.0.len()
    }

    /// Whether the list holds no range.
    pub fn is_empty(&self) -> (r: bool)
        ensures
            r == (self@.len() == 0),
    {
        self.0.len() == 0
    }
}

impl IntoIterator for SearchRangeList {
    type Item = SearchRange;
    type IntoIter = std::vec::IntoIter<SearchRange>;

    fn into_iter(self) -> Self::IntoIter {
        self.0.into_iter()
    }
}

impl<'a> IntoIterator for &'a SearchRangeList {
    type Item = &'a SearchRange;
    type IntoIter = std::slice::Iter<'a, SearchRange>;

    fn into_iter(self) -> Self::IntoIter {
        self.0.as_slice().iter()
    }
}

} // verus!

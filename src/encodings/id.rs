//! Object identifiers: a count-prefixed list of 32-bit sub-identifiers.
//!
//! Equality looks at the sub-identifiers only; the `inclusive` flag and the
//! count read from the wire do not take part.
use core::cmp::Ordering;
use vstd::prelude::*;
use vstd::std_specs::cmp::PartialEqSpec;
use vstd::utf8::{decode_utf8, encode_utf8};

use crate::encodings::dotted::{dotted_bytes, dotted_parse, dotted_text, lemma_ascii_valid_utf8, lemma_dotted_ascii, lemma_dotted_round_trip, parse_dotted};
use crate::encodings::octetstring::string_from_utf8;
use crate::wire::{bytes_to_u32, put_u32, tail, u32_bytes, u32_value, lemma_u32_round_trip, ByteOrder, Error};

verus! {

/// An object identifier.
///
/// Besides its sub-identifiers it keeps the count that stood on the wire when
/// it was decoded, so that a decoder knows how many bytes it took, even where a
/// compact prefix was expanded into the list.
#[derive(Debug)]
pub struct ID {
    orig_n_subid: u8,
    /// used in a search range to ask that the identifier itself be part of the results
    pub inclusive: u8,
    sub_ids: Vec<u32>,
}

/// What an identifier holds.
pub struct IdView {
    /// the sub-identifier count of the wire form it was read from
    pub orig_n_subid: u8,
    pub inclusive: u8,
    /// the sub-identifiers, with any compact prefix already expanded
    pub sub_ids: Seq<u32>,
}

impl ID {
    /// Every identifier fits the one-byte count of its wire form.
    #[verifier::type_invariant]
    spec fn fits_count(&self) -> bool {
        self.sub_ids@.len() <= 255
    }
}

impl View for ID {
    type V = IdView;

    closed spec fn view(&self) -> IdView {
        IdView { orig_n_subid: self.orig_n_subid, inclusive: self.inclusive, sub_ids: self.sub_ids@ }
    }
}

/// An identifier fits the one-byte count of its wire form.
pub open spec fn id_wf(v: IdView) -> bool {
    v.sub_ids.len() <= 255
}

/// Built from its sub-identifiers alone: the stored count is the real one.
pub open spec fn id_canonical(v: IdView) -> bool {
    id_wf(v) && v.orig_n_subid as int == v.sub_ids.len()
}

/// The wire form of a list of sub-identifiers, one after another.
pub open spec fn subids_bytes(s: Seq<u32>, bo: ByteOrder) -> Seq<u8>
    decreases s.len(),
{
    if s.len() == 0 {
        Seq::empty()
    } else {
        subids_bytes(s.drop_last(), bo) + u32_bytes(s.last(), bo)
    }
}

/// Wire form: count, prefix (always 0), inclusive, reserved, then the sub-identifiers.
pub open spec fn id_bytes(v: IdView, bo: ByteOrder) -> Seq<u8> {
    seq![v.sub_ids.len() as u8, 0u8, v.inclusive, 0u8] + subids_bytes(v.sub_ids, bo)
}

/// The `n` sub-identifiers stored one after another at the start of `b`.
pub open spec fn subids_value(b: Seq<u8>, n: nat, bo: ByteOrder) -> Seq<u32> {
    Seq::new(n, |i: int| u32_value(b.skip(4 * i), bo))
}

/// The internet prefix `1.3.6.1.p` put in front of `s` when `p` is not zero.
pub open spec fn normalize(s: Seq<u32>, prefix: u8) -> Seq<u32> {
    if prefix == 0 {
        s
    } else {
        seq![1u32, 3u32, 6u32, 1u32, prefix as u32] + s
    }
}

/// The identifier at the start of `b`, if the bytes hold one.
///
/// It fails when the header or the listed sub-identifiers are cut short, and
/// when expanding a compact prefix would give more sub-identifiers than the
/// count byte can hold.
pub open spec fn id_parse(b: Seq<u8>, bo: ByteOrder) -> Option<IdView> {
    if b.len() < 4 || b.len() < 4 + 4 * (b[0] as int) || (b[1] != 0 && b[0] > 250) {
        None
    } else {
        Some(
            IdView {
                orig_n_subid: b[0],
                inclusive: b[2],
                sub_ids: normalize(subids_value(b.skip(4), b[0] as nat, bo), b[1]),
            },
        )
    }
}

/// The number of bytes the identifier took on the wire.
pub open spec fn id_size(v: IdView) -> nat {
    4 + 4 * (v.orig_n_subid as nat)
}

pub proof fn lemma_subids_bytes(s: Seq<u32>, bo: ByteOrder, rest: Seq<u8>)
    ensures
        subids_bytes(s, bo).len() == 4 * s.len(),
        forall|i: int|
            0 <= i < s.len() ==> u32_value(#[trigger] (subids_bytes(s, bo) + rest).skip(4 * i), bo)
                == s[i],
    decreases s.len(),
{
    if s.len() > 0 {
        let init = s.drop_last();
        let last_bytes = u32_bytes(s.last(), bo);
        lemma_subids_bytes(init, bo, last_bytes + rest);
        lemma_u32_round_trip(s.last(), bo, rest);
        assert(subids_bytes(s, bo) + rest =~= subids_bytes(init, bo) + (last_bytes + rest));
        assert forall|i: int| 0 <= i < s.len() implies u32_value(
            #[trigger] (subids_bytes(s, bo) + rest).skip(4 * i),
            bo,
        ) == s[i] by {
            if i < s.len() - 1 {
                assert(init[i] == s[i]);
            } else {
                assert((subids_bytes(s, bo) + rest).skip(4 * i) =~= last_bytes + rest);
            }
        }
    }
}

/// Decoding the wire form of a valid identifier gives its sub-identifiers and
/// `inclusive` flag back, with the count that it wrote, whatever bytes follow.
pub proof fn lemma_id_round_trip(v: IdView, bo: ByteOrder, rest: Seq<u8>)
    requires
        id_wf(v),
    ensures
        id_parse(id_bytes(v, bo) + rest, bo) == Some(
            IdView { orig_n_subid: v.sub_ids.len() as u8, inclusive: v.inclusive, sub_ids: v.sub_ids },
        ),
        id_bytes(v, bo).len() == 4 + 4 * v.sub_ids.len(),
{
    let b = id_bytes(v, bo) + rest;
    lemma_subids_bytes(v.sub_ids, bo, rest);
    assert(b.skip(4) =~= subids_bytes(v.sub_ids, bo) + rest);
    assert(b[0] == v.sub_ids.len() as u8 && b[1] == 0 && b[2] == v.inclusive);
    assert(subids_value(b.skip(4), v.sub_ids.len(), bo) =~= v.sub_ids);
}

/// The wire form of an identifier built from its sub-identifiers alone is as
/// long as the size it reports.
pub proof fn lemma_id_byte_size(v: IdView, bo: ByteOrder)
    requires
        id_canonical(v),
    ensures
        id_bytes(v, bo).len() == id_size(v),
{
    lemma_id_round_trip(v, bo, Seq::empty());
}

/// An identifier cut off before its end does not decode.
pub proof fn lemma_id_truncated(v: IdView, bo: ByteOrder, k: int)
    requires
        id_wf(v),
        0 <= k < id_bytes(v, bo).len(),
    ensures
        id_parse(id_bytes(v, bo).take(k), bo) is None,
{
    lemma_id_round_trip(v, bo, Seq::empty());
    let b = id_bytes(v, bo).take(k);
    if k >= 4 {
        assert(b[0] == id_bytes(v, bo)[0]);
    }
}

/// The compact wire form of `1.3.6.1.p.s`: one listed sub-identifier `s`
/// under the internet prefix `p`.
pub open spec fn compact_bytes(p: u8, s: u32, flag: u8, bo: ByteOrder) -> Seq<u8> {
    seq![1u8, p, flag, 0u8] + u32_bytes(s, bo)
}

/// Decoding the compact form with prefix `p` and sub-identifier `s` gives the
/// same sub-identifiers as decoding the explicit form `1.3.6.1.p.s`; encoding
/// the decoded identifier always writes the explicit form.
pub proof fn lemma_id_normalization(p: u8, s: u32, flag: u8, bo: ByteOrder)
    requires
        p != 0,
    ensures
        ({
            let full = seq![1u32, 3u32, 6u32, 1u32, p as u32, s];
            let explicit = id_bytes(IdView { orig_n_subid: 6, inclusive: flag, sub_ids: full }, bo);
            &&& id_parse(compact_bytes(p, s, flag, bo), bo) == Some(
                IdView { orig_n_subid: 1, inclusive: flag, sub_ids: full },
            )
            &&& id_parse(explicit, bo) == Some(IdView { orig_n_subid: 6, inclusive: flag, sub_ids: full })
            &&& id_bytes(id_parse(compact_bytes(p, s, flag, bo), bo).unwrap(), bo) == explicit
        }),
{
    let full = seq![1u32, 3u32, 6u32, 1u32, p as u32, s];
    let c = compact_bytes(p, s, flag, bo);
    lemma_u32_round_trip(s, bo, Seq::empty());
    assert(c.skip(4) =~= u32_bytes(s, bo) + Seq::<u8>::empty());
    assert(subids_value(c.skip(4), 1, bo) =~= seq![s]);
    assert(normalize(seq![s], p) =~= full);
    let v = IdView { orig_n_subid: 6, inclusive: flag, sub_ids: full };
    lemma_id_round_trip(v, bo, Seq::empty());
    assert(id_bytes(v, bo) + Seq::<u8>::empty() =~= id_bytes(v, bo));
}

/// Lexicographic order of two sub-identifier lists; a proper prefix comes first.
pub open spec fn lex_cmp(a: Seq<u32>, b: Seq<u32>) -> Ordering
    decreases a.len(),
{
    if a.len() == 0 {
        if b.len() == 0 {
            Ordering::Equal
        } else {
            Ordering::Less
        }
    } else if b.len() == 0 {
        Ordering::Greater
    } else if a[0] < b[0] {
        Ordering::Less
    } else if a[0] > b[0] {
        Ordering::Greater
    } else {
        lex_cmp(a.drop_first(), b.drop_first())
    }
}

/// Two identifiers are equal when their sub-identifiers are; the `inclusive`
/// flag and the stored wire count are left out.
impl PartialEq for ID {
    fn eq(&self, other: &ID) -> (r: bool) {
        let n = self.sub_ids.len();
        if n != other.sub_ids.len() {
            return false;
        }
        let mut i: usize = 0;
        while i < n
            invariant
                n == self.sub_ids@.len(),
                n == other.sub_ids@.len(),
                i <= n,
                self.sub_ids@.take(i as int) == other.sub_ids@.take(i as int),
            decreases n - i,
        {
            if self.sub_ids[i] != other.sub_ids[i] {
                assert(self.sub_ids@[i as int] != other.sub_ids@[i as int]);
                return false;
            }
            assert(self.sub_ids@.take(i + 1) =~= self.sub_ids@.take(i as int).push(self.sub_ids@[i as int]));
            assert(other.sub_ids@.take(i + 1) =~= other.sub_ids@.take(i as int).push(other.sub_ids@[i as int]));
            i = i + 1;
        }
        assert(self.sub_ids@.take(n as int) =~= self.sub_ids@);
        assert(other.sub_ids@.take(n as int) =~= other.sub_ids@);
        true
    }
}

impl vstd::std_specs::cmp::PartialEqSpecImpl for ID {
    open spec fn obeys_eq_spec() -> bool {
        true
    }

    open spec fn eq_spec(&self, other: &ID) -> bool {
        self@.sub_ids == other@.sub_ids
    }
}

impl Clone for ID {
    fn clone(&self) -> (r: ID) {
        proof {
            use_type_invariant(self);
        }
        let mut sub_ids: Vec<u32> = Vec::new();
        let mut i: usize = 0;
        while i < self.sub_ids.len()
            invariant
                i <= self.sub_ids@.len(),
                self.sub_ids@.len() <= 255,
                sub_ids@ == self.sub_ids@.take(i as int),
            decreases self.sub_ids@.len() - i,
        {
            sub_ids.push(self.sub_ids[i]);
            i = i + 1;
            assert(sub_ids@ =~= self.sub_ids@.take(i as int));
        }
        ID { orig_n_subid: self.orig_n_subid, inclusive: self.inclusive, sub_ids }
    }
}

impl Default for ID {
    fn default() -> (r: ID)
        ensures
            r@ == (IdView { orig_n_subid: 0, inclusive: 0, sub_ids: Seq::empty() }),
    {
        ID::null()
    }
}

/// Reading the textual form of an identifier gives back its sub-identifiers.
pub proof fn lemma_text_round_trip(v: IdView)
    ensures
        dotted_parse(encode_utf8(decode_utf8(dotted_bytes(v.sub_ids)))) == Some(v.sub_ids),
{
    lemma_dotted_ascii(v.sub_ids);
    lemma_ascii_valid_utf8(dotted_bytes(v.sub_ids));
    vstd::utf8::decode_utf8_encode_utf8(dotted_bytes(v.sub_ids));
    lemma_dotted_round_trip(v.sub_ids);
}

/// Identifiers with the same sub-identifiers are equal, whatever their
/// `inclusive` flags and stored wire counts.
pub proof fn lemma_id_eq_ignores_flags(a: ID, b: ID)
    requires
        a@.sub_ids == b@.sub_ids,
    ensures
        a.eq_spec(&b),
{
}

impl core::str::FromStr for ID {
    type Err = Error;

    fn from_str(input: &str) -> (r: Result<ID, Error>) {
        ID::from_dotted(input)
    }
}

impl Eq for ID {

}

/// Identifiers are ordered lexicographically by their sub-identifiers.
impl PartialOrd for ID {
    fn partial_cmp(&self, other: &ID) -> (r: Option<Ordering>) {
        let a = &self.sub_ids;
        let b = &other.sub_ids;
        let mut i: usize = 0;
        assert(a@.skip(0) =~= a@ && b@.skip(0) =~= b@);
        while i < a.len() && i < b.len() && a[i] == b[i]
            invariant
                i <= a@.len(),
                i <= b@.len(),
                lex_cmp(a@, b@) == lex_cmp(a@.skip(i as int), b@.skip(i as int)),
            decreases a@.len() - i,
        {
            assert(a@.skip(i as int).drop_first() =~= a@.skip(i + 1));
            assert(b@.skip(i as int).drop_first() =~= b@.skip(i + 1));
            i = i + 1;
        }
        if i < a.len() && i < b.len() {
            if a[i] < b[i] {
                Some(Ordering::Less)
            } else {
                Some(Ordering::Greater)
            }
        } else if i < b.len() {
            Some(Ordering::Less)
        } else if i < a.len() {
            Some(Ordering::Greater)
        } else {
            Some(Ordering::Equal)
        }
    }
}

impl vstd::std_specs::cmp::PartialOrdSpecImpl for ID {
    open spec fn obeys_partial_cmp_spec() -> bool {
        true
    }

    open spec fn partial_cmp_spec(&self, other: &ID) -> Option<Ordering> {
        Some(lex_cmp(self@.sub_ids, other@.sub_ids))
    }
}

/// Hashes the sub-identifiers only, so that equal identifiers hash alike.
impl core::hash::Hash for ID {
    /// Relies on the `Hash` of `Vec<u32>`, fed the sub-identifiers alone.
    #[verifier::external_body]
    fn hash<H: core::hash::Hasher>(&self, state: &mut H) {
        self.sub_ids.hash(state)
    }
}

impl ID {
    /// Checks for the null identifier, the one without sub-identifiers.
    pub fn is_null(&self) -> (r: bool)
        ensures
            r == (self@.sub_ids.len() == 0),
    {
        self.sub_ids.len() == 0
    }

    /// Builds an identifier from its sub-identifiers, as [`ID::from_sub_ids`].
    pub fn try_from(value: Vec<u32>) -> (r: Result<ID, Error>)
        ensures
            value@.len() <= 255 <==> r is Ok,
            r matches Ok(id) ==> id@ == (IdView {
                orig_n_subid: value@.len() as u8,
                inclusive: 0,
                sub_ids: value@,
            }),
            value@.len() > 255 ==> r == Err::<ID, Error>(Error::InvalidData),
    {
        ID::from_sub_ids(value)
    }

    /// The null identifier: no sub-identifiers.
    pub fn null() -> (r: ID)
        ensures
            r@ == (IdView { orig_n_subid: 0, inclusive: 0, sub_ids: Seq::empty() }),
    {
        ID { orig_n_subid: 0, inclusive: 0, sub_ids: Vec::new() }
    }

    /// Builds an identifier from its sub-identifiers; fails when there are more
    /// than the wire's one-byte count can hold.
    pub fn from_sub_ids(sub_ids: Vec<u32>) -> (r: Result<ID, Error>)
        ensures
            sub_ids@.len() <= 255 <==> r is Ok,
            r matches Ok(id) ==> id@ == (IdView {
                orig_n_subid: sub_ids@.len() as u8,
                inclusive: 0,
                sub_ids: sub_ids@,
            }),
            sub_ids@.len() > 255 ==> r == Err::<ID, Error>(Error::InvalidData),
    {
        if sub_ids.len() > 255 {
            return Err(Error::InvalidData);
        }
        Ok(ID { orig_n_subid: sub_ids.len() as u8, inclusive: 0, sub_ids })
    }

    /// Reads the dotted textual form, such as `1.3.6.1`; the empty text is the
    /// null identifier. Fails on a piece that is not a 32-bit decimal number
    /// and on more than 255 sub-identifiers.
    pub fn from_dotted(input: &str) -> (r: Result<ID, Error>)
        ensures
            r is Ok <==> (dotted_parse(encode_utf8(input@)) matches Some(s) && s.len() <= 255),
            r matches Ok(id) ==> id@ == (IdView {
                orig_n_subid: dotted_parse(encode_utf8(input@)).unwrap().len() as u8,
                inclusive: 0,
                sub_ids: dotted_parse(encode_utf8(input@)).unwrap(),
            }),
            r is Err ==> r == Err::<ID, Error>(Error::InvalidData),
    {
        match parse_dotted(input.as_bytes()) {
            Some(sub_ids) => ID::from_sub_ids(sub_ids),
            None => Err(Error::InvalidData),
        }
    }

    /// The dotted textual form, such as `1.3.6.1`; empty for the null identifier.
    pub fn to_dotted(&self) -> (r: String)
        ensures
            r@ == decode_utf8(dotted_bytes(self@.sub_ids)),
    {
        let bytes = dotted_text(&self.sub_ids);
        proof {
            lemma_dotted_ascii(self.sub_ids@);
            lemma_ascii_valid_utf8(bytes@);
        }
        string_from_utf8(bytes).unwrap()
    }

    /// The sub-identifiers, with any compact prefix already expanded.
    pub fn sub_ids(&self) -> (r: &Vec<u32>)
        ensures
            r@ == self@.sub_ids,
    {
        &self.sub_ids
    }

    /// Serializes to bytes. The prefix byte is always 0: the full list is written.
    pub fn to_bytes(&self, bo: &ByteOrder) -> (r: Vec<u8>)
        ensures
            r@ == id_bytes(self@, *bo),
            id_wf(self@),
    {
        proof {
            use_type_invariant(self);
        }
        let n = self.sub_ids.len();
        let mut result: Vec<u8> = Vec::new();
        result.push(n as u8);
        result.push(0);
        result.push(self.inclusive);
        result.push(0);
        let mut i: usize = 0;
        while i < n
            invariant
                n == self.sub_ids@.len(),
                i <= n,
                result@ == seq![n as u8, 0u8, self.inclusive, 0u8] + subids_bytes(
                    self.sub_ids@.subrange(0, i as int),
                    *bo,
                ),
            decreases n - i,
        {
            put_u32(&mut result, self.sub_ids[i], bo);
            i = i + 1;
            proof {
                let s = self.sub_ids@.subrange(0, i as int);
                assert(s.drop_last() =~= self.sub_ids@.subrange(0, i - 1));
            }
        }
        assert(self.sub_ids@.subrange(0, n as int) =~= self.sub_ids@);
        result
    }

    /// The number of bytes this identifier took on the wire.
    pub fn byte_size(&self) -> (r: usize)
        ensures
            r == id_size(self@),
    {
        4 + 4 * (self.orig_n_subid as usize)
    }

    /// Deserializes from the start of `b`, expanding a compact internet prefix.
    pub fn from_bytes(b: &[u8], bo: &ByteOrder) -> (r: Result<ID, Error>)
        ensures
            r is Ok <==> id_parse(b@, *bo) is Some,
            r matches Ok(id) ==> id@ == id_parse(b@, *bo).unwrap(),
            r is Err ==> r == Err::<ID, Error>(Error::InvalidData),
    {
        if b.len() < 4 {
            return Err(Error::InvalidData);
        }
        let n_subid = b[0];
        let prefix = b[1];
        let inclusive = b[2];
        let n = n_subid as usize;
        if b.len() - 4 < 4 * n {
            return Err(Error::InvalidData);
        }
        if prefix != 0 && n_subid > 250 {
            return Err(Error::InvalidData);
        }
        let ghost body = b@.skip(4);
        let mut sub_ids: Vec<u32> = Vec::new();
        if prefix != 0 {
            sub_ids.push(1);
            sub_ids.push(3);
            sub_ids.push(6);
            sub_ids.push(1);
            sub_ids.push(prefix as u32);
        }
        let ghost head = sub_ids@;
        assert(head == normalize(Seq::empty(), prefix));
        let mut i: usize = 0;
        while i < n
            invariant
                n == b@[0] as usize,
                b@.len() >= 4 + 4 * n,
                body == b@.skip(4),
                i <= n,
                sub_ids@ == head + subids_value(body, i as nat, *bo),
            decreases n - i,
        {
            let v = match bytes_to_u32(tail(b, 4 + 4 * i), bo) {
                Ok(v) => v,
                Err(e) => return Err(e),
            };
            assert(b@.skip(4 + 4 * i) =~= body.skip(4 * i));
            sub_ids.push(v);
            i = i + 1;
            assert(sub_ids@ =~= head + subids_value(body, i as nat, *bo));
        }
        assert(normalize(subids_value(body, n as nat, *bo), prefix) =~= head + subids_value(
            body,
            n as nat,
            *bo,
        ));
        Ok(ID { orig_n_subid: n_subid, inclusive, sub_ids })
    }
}

} // verus!

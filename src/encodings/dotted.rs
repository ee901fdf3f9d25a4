//! The textual form of an object identifier: decimal sub-identifiers joined by
//! dots, such as `1.3.6.1`.
use vstd::prelude::*;
use vstd::utf8::{is_leading_byte_width_1, pop_first_scalar, valid_first_scalar, valid_utf8};

verus! {

/// The byte `'.'`.
pub const DOT: u8 = 46;

/// The byte `'+'`.
pub const PLUS: u8 = 43;

/// An ASCII decimal digit.
pub open spec fn is_digit(b: u8) -> bool {
    48 <= b <= 57
}

/// The pieces of `s` between dots, in order; a text without dots is one piece,
/// and the empty text is one empty piece.
pub open spec fn pieces(s: Seq<u8>) -> Seq<Seq<u8>>
    decreases s.len(),
{
    if s.len() == 0 {
        seq![Seq::empty()]
    } else {
        let p = pieces(s.drop_last());
        if s.last() == DOT {
            p.push(Seq::empty())
        } else {
            p.update(p.len() - 1, p.last().push(s.last()))
        }
    }
}

/// The number written by the decimal digits `d`.
pub open spec fn digits_value(d: Seq<u8>) -> int
    decreases d.len(),
{
    if d.len() == 0 {
        0
    } else {
        digits_value(d.drop_last()) * 10 + (d.last() - 48)
    }
}

/// The digits of a piece, after one optional leading `'+'`.
pub open spec fn unsigned_digits(c: Seq<u8>) -> Seq<u8> {
    if c.len() > 0 && c[0] == PLUS {
        c.skip(1)
    } else {
        c
    }
}

/// The 32-bit number a piece writes: at least one digit, after one optional
/// `'+'`, and nothing else; too large a number is no number.
pub open spec fn piece_value(c: Seq<u8>) -> Option<u32> {
    let d = unsigned_digits(c);
    if d.len() > 0 && (forall|i: int| 0 <= i < d.len() ==> is_digit(#[trigger] d[i])) && digits_value(d)
        <= u32::MAX {
        Some(digits_value(d) as u32)
    } else {
        None
    }
}

/// The sub-identifiers that the text `s` writes: none for the empty text,
/// otherwise one for each piece between dots, each of which must be a number.
pub open spec fn dotted_parse(s: Seq<u8>) -> Option<Seq<u32>> {
    if s.len() == 0 {
        Some(Seq::empty())
    } else if forall|i: int| 0 <= i < pieces(s).len() ==> (#[trigger] piece_value(pieces(s)[i])) is Some {
        Some(pieces(s).map_values(|c: Seq<u8>| piece_value(c).unwrap()))
    } else {
        None
    }
}

proof fn lemma_pieces_nonempty(s: Seq<u8>)
    ensures
        pieces(s).len() >= 1,
    decreases s.len(),
{
    if s.len() > 0 {
        lemma_pieces_nonempty(s.drop_last());
    }
}

/// Splits `s` at its dots.
fn split_dots(s: &[u8]) -> (r: Vec<Vec<u8>>)
    ensures
        r@.len() == pieces(s@).len(),
        forall|i: int| 0 <= i < r@.len() ==> (#[trigger] r@[i])@ == pieces(s@)[i],
{
    let mut r: Vec<Vec<u8>> = Vec::new();
    r.push(Vec::new());
    let mut i: usize = 0;
    assert(s@.take(0) =~= Seq::<u8>::empty());
    while i < s.len()
        invariant
            i <= s@.len(),
            r@.len() == pieces(s@.take(i as int)).len(),
            r@.len() >= 1,
            forall|j: int| 0 <= j < r@.len() ==> (#[trigger] r@[j])@ == pieces(s@.take(i as int))[j],
        decreases s@.len() - i,
    {
        let ghost prev = s@.take(i as int);
        assert(s@.take(i + 1).drop_last() =~= prev);
        if s[i] == DOT {
            r.push(Vec::new());
        } else {
            let last = r.len() - 1;
            let mut piece = r.pop().unwrap();
            piece.push(s[i]);
            r.push(piece);
            proof {
                assert(last == r@.len() - 1);
            }
        }
        i = i + 1;
        proof {
            let p = pieces(s@.take(i as int));
            assert forall|j: int| 0 <= j < r@.len() implies (#[trigger] r@[j])@ == p[j] by {
            }
        }
    }
    assert(s@.take(s@.len() as int) =~= s@);
    r
}

/// The number a piece writes, if it is one.
fn piece_to_u32(c: &Vec<u8>) -> (r: Option<u32>)
    ensures
        r == piece_value(c@),
{
    let start: usize = if c.len() > 0 && c[0] == PLUS {
        1
    } else {
        0
    };
    let ghost d = unsigned_digits(c@);
    assert(d =~= c@.skip(start as int));
    if c.len() <= start {
        return None;
    }
    let mut acc: u64 = 0;
    let mut too_big = false;
    let mut i: usize = start;
    assert(d.take(0) =~= Seq::<u8>::empty());
    while i < c.len()
        invariant
            start <= i <= c@.len(),
            d == c@.skip(start as int),
            d == unsigned_digits(c@),
            forall|j: int| 0 <= j < i - start ==> is_digit(#[trigger] d[j]),
            too_big ==> digits_value(d.take(i - start)) > u32::MAX,
            !too_big ==> acc == digits_value(d.take(i - start)) && acc <= u32::MAX,
            digits_value(d.take(i - start)) >= 0,
        decreases c@.len() - i,
    {
        let b = c[i];
        if !(48 <= b && b <= 57) {
            proof {
                let k: int = i - start;
                assert(!is_digit(d[k]));
                assert(!(forall|j: int| 0 <= j < d.len() ==> is_digit(#[trigger] d[j])));
            }
            return None;
        }
        let ghost k: int = i - start;
        assert(d.take(k + 1).drop_last() =~= d.take(k));
        if !too_big {
            acc = acc * 10 + (b - 48) as u64;
            if acc > 0xffff_ffffu64 {
                too_big = true;
            }
        }
        i = i + 1;
    }
    assert(d.take(c@.len() - start) =~= d);
    if too_big {
        None
    } else {
        Some(acc as u32)
    }
}

/// Reads the sub-identifiers that the text `s` writes.
pub fn parse_dotted(s: &[u8]) -> (r: Option<Vec<u32>>)
    ensures
        r matches Some(v) ==> dotted_parse(s@) == Some(v@),
        r is None ==> dotted_parse(s@) is None,
{
    if s.len() == 0 {
        return Some(Vec::new());
    }
    let parts = split_dots(s);
    let ghost ps = pieces(s@);
    let mut out: Vec<u32> = Vec::new();
    let mut i: usize = 0;
    while i < parts.len()
        invariant
            i <= parts@.len(),
            s@.len() > 0,
            parts@.len() == ps.len(),
            ps == pieces(s@),
            forall|j: int| 0 <= j < parts@.len() ==> (#[trigger] parts@[j])@ == ps[j],
            out@.len() == i,
            forall|j: int| 0 <= j < i ==> (#[trigger] piece_value(ps[j])) is Some && out@[j] == piece_value(ps[j]).unwrap(),
        decreases parts@.len() - i,
    {
        match piece_to_u32(&parts[i]) {
            Some(v) => out.push(v),
            None => {
                assert(piece_value(pieces(s@)[i as int]) is None);
                assert(!(forall|j: int|
                    0 <= j < pieces(s@).len() ==> (#[trigger] piece_value(pieces(s@)[j])) is Some));
                return None;
            },
        }
        i = i + 1;
    }
    assert(out@ =~= ps.map_values(|c: Seq<u8>| piece_value(c).unwrap()));
    Some(out)
}

/// The decimal digits of `n`, most significant first, without leading zeros.
pub open spec fn decimal_bytes(n: nat) -> Seq<u8>
    decreases n,
{
    if n < 10 {
        seq![(48 + n) as u8]
    } else {
        decimal_bytes(n / 10).push((48 + n % 10) as u8)
    }
}

/// The textual form of a list of sub-identifiers: their decimal forms joined
/// by dots; nothing for the empty list.
pub open spec fn dotted_bytes(s: Seq<u32>) -> Seq<u8>
    decreases s.len(),
{
    if s.len() == 0 {
        Seq::empty()
    } else if s.len() == 1 {
        decimal_bytes(s[0] as nat)
    } else {
        dotted_bytes(s.drop_last()).push(DOT) + decimal_bytes(s.last() as nat)
    }
}

proof fn lemma_decimal_bytes(n: nat)
    ensures
        decimal_bytes(n).len() > 0,
        forall|i: int| 0 <= i < decimal_bytes(n).len() ==> is_digit(#[trigger] decimal_bytes(n)[i]),
        digits_value(decimal_bytes(n)) == n,
    decreases n,
{
    if n < 10 {
        assert(decimal_bytes(n).drop_last() =~= Seq::<u8>::empty());
        assert(digits_value(Seq::<u8>::empty()) == 0);
    } else {
        lemma_decimal_bytes(n / 10);
        let d = decimal_bytes(n);
        assert(d.drop_last() =~= decimal_bytes(n / 10));
        assert(d.last() == (48 + n % 10) as u8);
        assert(d.last() - 48 == n % 10);
        assert(digits_value(d) == digits_value(decimal_bytes(n / 10)) * 10 + (d.last() - 48));
        assert((n / 10) * 10 + n % 10 == n);
    }
}

/// Appending bytes without dots to a text extends its last piece.
proof fn lemma_pieces_append(x: Seq<u8>, d: Seq<u8>)
    requires
        forall|i: int| 0 <= i < d.len() ==> #[trigger] d[i] != DOT,
    ensures
        pieces(x + d) == pieces(x).update(pieces(x).len() - 1, pieces(x).last() + d),
    decreases d.len(),
{
    lemma_pieces_nonempty(x);
    if d.len() == 0 {
        assert(x + d =~= x);
        assert(pieces(x).last() + d =~= pieces(x).last());
        assert(pieces(x).update(pieces(x).len() - 1, pieces(x).last()) =~= pieces(x));
    } else {
        let d0 = d.drop_last();
        lemma_pieces_append(x, d0);
        assert((x + d).drop_last() =~= x + d0);
        assert((x + d).last() == d.last());
        let p = pieces(x + d0);
        assert(p.last() =~= pieces(x).last() + d0);
        assert(p.last().push(d.last()) =~= pieces(x).last() + d);
        assert(p.update(p.len() - 1, p.last().push(d.last())) =~= pieces(x).update(
            pieces(x).len() - 1,
            pieces(x).last() + d,
        ));
    }
}

/// The pieces of the textual form are the decimal forms of the sub-identifiers.
proof fn lemma_pieces_dotted(s: Seq<u32>)
    requires
        s.len() > 0,
    ensures
        pieces(dotted_bytes(s)) == s.map_values(|v: u32| decimal_bytes(v as nat)),
    decreases s.len(),
{
    let f = |v: u32| decimal_bytes(v as nat);
    let last = decimal_bytes(s.last() as nat);
    lemma_decimal_bytes(s.last() as nat);
    assert forall|i: int| 0 <= i < last.len() implies #[trigger] last[i] != DOT by {
        assert(is_digit(last[i]));
    }
    if s.len() == 1 {
        lemma_pieces_append(Seq::empty(), last);
        assert(Seq::<u8>::empty() + last =~= last);
        assert(Seq::<u8>::empty() + last =~= last);
        assert(pieces(Seq::<u8>::empty()) =~= seq![Seq::<u8>::empty()]);
        assert(s.map_values(f) =~= seq![last]);
        assert(pieces(last) =~= seq![last]);
    } else {
        let init = s.drop_last();
        lemma_pieces_dotted(init);
        let x = dotted_bytes(init).push(DOT);
        assert(x.drop_last() =~= dotted_bytes(init));
        assert(pieces(x) == pieces(dotted_bytes(init)).push(Seq::empty()));
        lemma_pieces_append(x, last);
        assert(Seq::<u8>::empty() + last =~= last);
        assert(s.map_values(f) =~= init.map_values(f).push(last));
        assert(pieces(x + last) =~= s.map_values(f));
    }
}

/// Reading the textual form of a list of sub-identifiers gives the list back.
pub proof fn lemma_dotted_round_trip(s: Seq<u32>)
    ensures
        dotted_parse(dotted_bytes(s)) == Some(s),
{
    if s.len() > 0 {
        lemma_pieces_dotted(s);
        let f = |v: u32| decimal_bytes(v as nat);
        let p = pieces(dotted_bytes(s));
        assert(dotted_bytes(s).len() > 0) by {
            lemma_pieces_nonempty(dotted_bytes(s));
            if dotted_bytes(s).len() == 0 {
                assert(p =~= seq![Seq::<u8>::empty()]);
                lemma_decimal_bytes(s[0] as nat);
                assert(p[0] == f(s[0]));
            }
        }
        assert forall|i: int| 0 <= i < p.len() implies (#[trigger] piece_value(p[i])) is Some
            && piece_value(p[i]).unwrap() == s[i] by {
            lemma_decimal_bytes(s[i] as nat);
            let d = decimal_bytes(s[i] as nat);
            assert(p[i] == d);
            assert(is_digit(d[0]));
            assert(unsigned_digits(d) == d);
        }
        assert(p.map_values(|c: Seq<u8>| piece_value(c).unwrap()) =~= s);
    }
}

/// ASCII bytes are valid UTF-8.
pub proof fn lemma_ascii_valid_utf8(b: Seq<u8>)
    requires
        forall|i: int| 0 <= i < b.len() ==> #[trigger] b[i] < 128,
    ensures
        valid_utf8(b),
    decreases b.len(),
{
    if b.len() > 0 {
        assert(is_leading_byte_width_1(b[0]));
        let x = b[0];
        assert((x & 0x7f) as u32 == x as u32) by (bit_vector)
            requires
                x < 128u8,
        ;
        assert(valid_first_scalar(b));
        let rest = pop_first_scalar(b);
        assert(rest =~= b.skip(1));
        lemma_ascii_valid_utf8(rest);
    }
}

/// The bytes of the textual form are ASCII digits and dots.
pub proof fn lemma_dotted_ascii(s: Seq<u32>)
    ensures
        forall|i: int| 0 <= i < dotted_bytes(s).len() ==> #[trigger] dotted_bytes(s)[i] < 128,
    decreases s.len(),
{
    if s.len() > 0 {
        lemma_decimal_bytes(s.last() as nat);
        let last = decimal_bytes(s.last() as nat);
        assert forall|i: int| 0 <= i < last.len() implies #[trigger] last[i] < 128 by {
            assert(is_digit(last[i]));
        }
        if s.len() > 1 {
            let init = s.drop_last();
            lemma_dotted_ascii(init);
            let x = dotted_bytes(init).push(DOT);
            let whole = dotted_bytes(s);
            assert(whole == x + last);
            assert forall|i: int| 0 <= i < whole.len() implies #[trigger] whole[i] < 128 by {
                if i < x.len() - 1 {
                    assert(whole[i] == dotted_bytes(init)[i]);
                } else if i >= x.len() {
                    assert(whole[i] == last[i - x.len()]);
                }
            }
        } else {
            assert(s[0] == s.last());
        }
    }
}

/// Appends the decimal digits of `n`.
fn push_decimal(out: &mut Vec<u8>, n: u32)
    ensures
        final(out)@ == old(out)@ + decimal_bytes(n as nat),
    decreases n,
{
    if n >= 10 {
        push_decimal(out, n / 10);
    }
    out.push(48 + (n % 10) as u8);
    proof {
        if n >= 10 {
            assert(decimal_bytes(n as nat) == decimal_bytes((n / 10) as nat).push((48 + n % 10) as u8));
        }
    }
    assert(out@ =~= old(out)@ + decimal_bytes(n as nat));
}

/// The textual form of a list of sub-identifiers.
pub fn dotted_text(s: &Vec<u32>) -> (r: Vec<u8>)
    ensures
        r@ == dotted_bytes(s@),
{
    let mut out: Vec<u8> = Vec::new();
    let mut i: usize = 0;
    assert(s@.take(0) =~= Seq::<u32>::empty());
    while i < s.len()
        invariant
            i <= s@.len(),
            out@ == dotted_bytes(s@.take(i as int)),
        decreases s@.len() - i,
    {
        let ghost before = out@;
        if i > 0 {
            out.push(DOT);
        }
        push_decimal(&mut out, s[i]);
        proof {
            let t = s@.take(i + 1);
            assert(t.drop_last() =~= s@.take(i as int));
            if i == 0 {
                assert(out@ =~= decimal_bytes(s@[0] as nat));
            } else {
                assert(out@ =~= before.push(DOT) + decimal_bytes(s@[i as int] as nat));
            }
        }
        i = i + 1;
    }
    assert(s@.take(s@.len() as int) =~= s@);
    out
}

} // verus!

//! Numbers as decimal text, and text that is read piece by piece.

use vstd::prelude::*;

verus! {

/// The byte is one of `0` to `9`.
pub open spec fn is_digit(b: u8) -> bool {
    48 <= b <= 57
}

/// The digit that stands for `d`.
pub open spec fn digit(d: nat) -> u8 {
    (48 + d) as u8
}

/// `n` in decimal, without leading zeros.
pub open spec fn decimal(n: nat) -> Seq<u8>
    decreases n,
{
    if n < 10 {
        seq![digit(n)]
    } else {
        decimal(n / 10).push(digit(n % 10))
    }
}

/// The number that a row of digits stands for.
pub open spec fn value(d: Seq<u8>) -> nat
    decreases d.len(),
{
    if d.len() == 0 {
        0
    } else {
        value(d.drop_last()) * 10 + (d.last() - 48) as nat
    }
}

/// Where the digits that start at `pos` end.
pub open spec fn digits_end(t: Seq<u8>, pos: int) -> int
    decreases t.len() - pos,
{
    if 0 <= pos < t.len() && is_digit(t[pos]) {
        digits_end(t, pos + 1)
    } else {
        pos
    }
}

/// Reads a number at `pos`: all the digits that stand there, at least one,
/// as long as their value fits the machine's index type. Gives the number
/// and the place behind it.
pub open spec fn parse_number(t: Seq<u8>, pos: int) -> Option<(nat, int)> {
    let end = digits_end(t, pos);
    if end <= pos {
        None
    } else if value(t.subrange(pos, end)) > usize::MAX {
        None
    } else {
        Some((value(t.subrange(pos, end)), end))
    }
}

/// The numbers as the machine holds them, taken as plain numbers.
pub open spec fn as_nats(v: Seq<usize>) -> Seq<nat> {
    Seq::new(v.len(), |i: int| v[i] as nat)
}

/// `piece` stands in `t` at `pos`.
pub open spec fn holds_at(t: Seq<u8>, pos: int, piece: Seq<u8>) -> bool {
    0 <= pos && pos + piece.len() <= t.len() && t.subrange(pos, pos + piece.len()) == piece
}

/// Reads `piece` at `pos`, and gives the place behind it.
pub open spec fn expect(t: Seq<u8>, pos: int, piece: Seq<u8>) -> Option<int> {
    if holds_at(t, pos, piece) {
        Some(pos + piece.len())
    } else {
        None
    }
}

/// No digit stands at `pos`: the text ends there, or goes on otherwise.
pub open spec fn no_digit_at(t: Seq<u8>, pos: int) -> bool {
    pos >= t.len() || !is_digit(t[pos])
}

/// Two pieces stand one after the other exactly where their joint stands.
pub proof fn lemma_holds_at_concat(t: Seq<u8>, pos: int, a: Seq<u8>, b: Seq<u8>)
    ensures
        holds_at(t, pos, a + b) == (holds_at(t, pos, a) && holds_at(t, pos + a.len(), b)),
{
    let ab = a + b;
    if holds_at(t, pos, ab) {
        assert(t.subrange(pos, pos + a.len()) =~= a) by {
            assert forall|i: int| 0 <= i < a.len() implies t.subrange(pos, pos + a.len())[i]
                == a[i] by {
                assert(t.subrange(pos, pos + ab.len())[i] == ab[i]);
            }
        }
        assert(t.subrange(pos + a.len(), pos + a.len() + b.len()) =~= b) by {
            assert forall|i: int| 0 <= i < b.len() implies t.subrange(
                pos + a.len(),
                pos + a.len() + b.len(),
            )[i] == b[i] by {
                assert(t.subrange(pos, pos + ab.len())[a.len() + i] == ab[a.len() + i]);
            }
        }
    }
    if holds_at(t, pos, a) && holds_at(t, pos + a.len(), b) {
        assert(t.subrange(pos, pos + ab.len()) =~= ab) by {
            assert forall|i: int| 0 <= i < ab.len() implies t.subrange(pos, pos + ab.len())[i]
                == ab[i] by {
                if i < a.len() {
                    assert(t.subrange(pos, pos + a.len())[i] == a[i]);
                } else {
                    assert(t.subrange(pos + a.len(), pos + a.len() + b.len())[i - a.len()] == b[i
                        - a.len()]);
                }
            }
        }
    }
}

/// A piece that stands in the text holds the bytes of the text.
pub proof fn lemma_holds_at_index(t: Seq<u8>, pos: int, piece: Seq<u8>, i: int)
    requires
        holds_at(t, pos, piece),
        0 <= i < piece.len(),
    ensures
        t[pos + i] == piece[i],
{
    assert(t.subrange(pos, pos + piece.len())[i] == piece[i]);
}

/// A number in decimal is a row of at least one digit.
pub proof fn lemma_decimal_digits(n: nat)
    ensures
        decimal(n).len() >= 1,
        forall|i: int| 0 <= i < decimal(n).len() ==> is_digit(#[trigger] decimal(n)[i]),
    decreases n,
{
    if n >= 10 {
        lemma_decimal_digits(n / 10);
    }
}

/// The digits of a number stand for that number.
pub proof fn lemma_value_decimal(n: nat)
    ensures
        value(decimal(n)) == n,
    decreases n,
{
    if n >= 10 {
        lemma_value_decimal(n / 10);
        assert(decimal(n).drop_last() =~= decimal(n / 10));
        assert(decimal(n).last() == digit(n % 10));
    } else {
        assert(decimal(n).drop_last() =~= Seq::<u8>::empty());
        assert(value(Seq::<u8>::empty()) == 0);
        assert(decimal(n).last() == digit(n));
    }
}

/// Digits up to `end`, and none there: that is where the digits end.
pub proof fn lemma_digits_end(t: Seq<u8>, pos: int, end: int)
    requires
        0 <= pos <= end <= t.len(),
        forall|i: int| pos <= i < end ==> is_digit(#[trigger] t[i]),
        no_digit_at(t, end),
    ensures
        digits_end(t, pos) == end,
    decreases end - pos,
{
    if pos < end {
        lemma_digits_end(t, pos + 1, end);
    }
}

/// The digits that start at `pos` are digits, and behind them stands none.
pub proof fn lemma_digits_end_is(t: Seq<u8>, pos: int)
    requires
        0 <= pos <= t.len(),
    ensures
        pos <= digits_end(t, pos) <= t.len(),
        forall|i: int| pos <= i < digits_end(t, pos) ==> is_digit(#[trigger] t[i]),
        no_digit_at(t, digits_end(t, pos)),
    decreases t.len() - pos,
{
    if pos < t.len() && is_digit(t[pos]) {
        lemma_digits_end_is(t, pos + 1);
    }
}

/// More digits do not make a smaller number.
pub proof fn lemma_value_grows(t: Seq<u8>, pos: int, mid: int, end: int)
    requires
        0 <= pos <= mid <= end <= t.len(),
        forall|i: int| pos <= i < end ==> is_digit(#[trigger] t[i]),
    ensures
        value(t.subrange(pos, mid)) <= value(t.subrange(pos, end)),
    decreases end - mid,
{
    if mid < end {
        lemma_value_grows(t, pos, mid, end - 1);
        assert(t.subrange(pos, end).drop_last() =~= t.subrange(pos, end - 1));
    }
}

/// A number written in decimal is read back where the text does not go on
/// with a digit.
pub proof fn lemma_parse_decimal(t: Seq<u8>, pos: int, n: nat)
    requires
        holds_at(t, pos, decimal(n)),
        no_digit_at(t, pos + decimal(n).len()),
        n <= usize::MAX,
    ensures
        parse_number(t, pos) == Some((n, pos + decimal(n).len())),
{
    let end = pos + decimal(n).len();
    lemma_decimal_digits(n);
    lemma_value_decimal(n);
    assert forall|i: int| pos <= i < end implies is_digit(#[trigger] t[i]) by {
        lemma_holds_at_index(t, pos, decimal(n), i - pos);
    }
    lemma_digits_end(t, pos, end);
}

/// Is the byte one of `0` to `9`?
pub fn is_digit_byte(b: u8) -> (yes: bool)
    ensures
        yes == is_digit(b),
{
    48 <= b && b <= 57
}

/// Appends `n` in decimal.
pub fn push_decimal(out: &mut Vec<u8>, n: usize)
    ensures
        final(out)@ == old(out)@ + decimal(n as nat),
    decreases n,
{
    if n >= 10 {
        push_decimal(out, n / 10);
    }
    out.push(48 + (n % 10) as u8);
    proof {
        if n >= 10 {
            assert(final(out)@ =~= old(out)@ + decimal(n as nat));
        } else {
            assert(final(out)@ =~= old(out)@ + decimal(n as nat));
        }
    }
}

/// Appends the bytes of `piece`.
pub fn push_bytes(out: &mut Vec<u8>, piece: &[u8])
    ensures
        final(out)@ == old(out)@ + piece@,
{
    let mut i: usize = 0;
    while i < piece.len()
        invariant
            i <= piece.len(),
            out@ == old(out)@ + piece@.subrange(0, i as int),
        decreases piece.len() - i,
    {
        out.push(piece[i]);
        i = i + 1;
        proof {
            assert(out@ =~= old(out)@ + piece@.subrange(0, i as int));
        }
    }
    proof {
        assert(piece@.subrange(0, i as int) =~= piece@);
    }
}

/// Reads the number that stands at `pos`.
pub fn read_number(text: &[u8], pos: usize) -> (read: Option<(usize, usize)>)
    requires
        pos <= text.len(),
    ensures
        match read {
            Some((n, end)) => parse_number(text@, pos as int) == Some((n as nat, end as int))
                && pos < end <= text.len(),
            None => parse_number(text@, pos as int) is None,
        },
{
    let mut i: usize = pos;
    let mut n: usize = 0;
    proof {
        lemma_digits_end_is(text@, pos as int);
        assert(text@.subrange(pos as int, pos as int) =~= Seq::<u8>::empty());
    }
    while i < text.len() && is_digit_byte(text[i])
        invariant
            pos <= i <= text.len(),
            i <= digits_end(text@, pos as int) <= text.len(),
            forall|j: int| pos <= j < digits_end(text@, pos as int) ==> is_digit(#[trigger] text@[j]),
            no_digit_at(text@, digits_end(text@, pos as int)),
            n == value(text@.subrange(pos as int, i as int)),
        decreases text.len() - i,
    {
        let d: usize = (text[i] - 48) as usize;
        proof {
            assert(text@.subrange(pos as int, i + 1).drop_last() =~= text@.subrange(
                pos as int,
                i as int,
            ));
            lemma_value_grows(text@, pos as int, i + 1, digits_end(text@, pos as int));
        }
        if n > (usize::MAX - d) / 10 {
            return None;
        }
        n = n * 10 + d;
        i = i + 1;
    }
    if i == pos {
        None
    } else {
        Some((n, i))
    }
}

/// Does `piece` stand in `text` at `pos`? Gives the place behind it.
pub fn read_piece(text: &[u8], pos: usize, piece: &[u8]) -> (read: Option<usize>)
    requires
        pos <= text.len(),
    ensures
        read == match expect(text@, pos as int, piece@) {
            Some(end) => Some(end as usize),
            None => None,
        },
        read matches Some(end) ==> end == pos + piece.len() && end <= text.len(),
{
    if piece.len() > text.len() - pos {
        return None;
    }
    let mut i: usize = 0;
    while i < piece.len()
        invariant
            i <= piece.len(),
            pos + piece.len() <= text.len(),
            forall|j: int| 0 <= j < i ==> text@[pos + j] == piece@[j],
        decreases piece.len() - i,
    {
        if text[pos + i] != piece[i] {
            proof {
                if holds_at(text@, pos as int, piece@) {
                    lemma_holds_at_index(text@, pos as int, piece@, i as int);
                }
            }
            return None;
        }
        i = i + 1;
    }
    proof {
        assert(text@.subrange(pos as int, pos + piece.len()) =~= piece@);
    }
    Some(pos + piece.len())
}

} // verus!

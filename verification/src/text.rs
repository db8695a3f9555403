//! Byte-level text handling: splitting at a separator, comparing, copying, and
//! reading unsigned decimal numbers.

use vstd::prelude::*;

verus! {

/// The fields of `s` between occurrences of `sep`: one more than there are
/// separators, each possibly empty.
pub open spec fn split_on(s: Seq<u8>, sep: u8) -> Seq<Seq<u8>>
    decreases s.len(),
{
    if s.len() == 0 {
        seq![Seq::<u8>::empty()]
    } else {
        let prev = split_on(s.drop_last(), sep);
        if s.last() == sep {
            prev.push(Seq::<u8>::empty())
        } else {
            prev.update(prev.len() - 1, prev.last().push(s.last()))
        }
    }
}

/// The contents of a sequence of byte vectors.
pub open spec fn views(v: Seq<Vec<u8>>) -> Seq<Seq<u8>> {
    Seq::new(v.len(), |i: int| v[i]@)
}

/// Splits `s` at each occurrence of `sep`.
pub fn split(s: &[u8], sep: u8) -> (fields: Vec<Vec<u8>>)
    ensures
        views(fields@) == split_on(s@, sep),
        fields@.len() >= 1,
{
    let mut fields: Vec<Vec<u8>> = Vec::new();
    let mut current: Vec<u8> = Vec::new();
    let mut i: usize = 0;
    proof {
        assert(s@.take(0) =~= Seq::<u8>::empty());
        assert(views(fields@).push(current@) =~= split_on(s@.take(0), sep));
    }
    while i < s.len()
        invariant
            0 <= i <= s@.len(),
            views(fields@).push(current@) == split_on(s@.take(i as int), sep),
        decreases s@.len() - i,
    {
        let b: u8 = s[i];
        let ghost prev = views(fields@).push(current@);
        let ghost old_fields = fields@;
        let ghost old_current = current@;
        proof {
            assert(s@.take(i + 1).drop_last() == s@.take(i as int));
            assert(s@.take(i + 1).last() == b);
        }
        if b == sep {
            fields.push(current);
            current = Vec::new();
            proof {
                assert(views(fields@).push(current@) =~= prev.push(Seq::<u8>::empty()));
            }
        } else {
            current.push(b);
            proof {
                assert(views(fields@).push(current@) =~= prev.update(
                    prev.len() - 1,
                    prev.last().push(b),
                ));
            }
        }
        i += 1;
    }
    let ghost prev = views(fields@).push(current@);
    fields.push(current);
    proof {
        assert(s@.take(s@.len() as int) == s@);
        assert(views(fields@) =~= prev);
    }
    fields
}

/// Whether two byte strings hold the same bytes.
pub fn bytes_equal(a: &[u8], b: &[u8]) -> (r: bool)
    ensures
        r == (a@ == b@),
{
    if a.len() != b.len() {
        return false;
    }
    let mut i: usize = 0;
    while i < a.len()
        invariant
            0 <= i <= a@.len(),
            a@.len() == b@.len(),
            forall|j: int| 0 <= j < i ==> a@[j] == b@[j],
        decreases a@.len() - i,
    {
        if a[i] != b[i] {
            return false;
        }
        i += 1;
    }
    proof {
        assert(a@ =~= b@);
    }
    true
}

/// A copy of the bytes of `s` from `from` up to `to`.
pub fn copy_range(s: &[u8], from: usize, to: usize) -> (out: Vec<u8>)
    requires
        from <= to <= s@.len(),
    ensures
        out@ == s@.subrange(from as int, to as int),
{
    let mut out: Vec<u8> = Vec::new();
    let mut i: usize = from;
    while i < to
        invariant
            from <= i <= to <= s@.len(),
            out@ == s@.subrange(from as int, i as int),
        decreases to - i,
    {
        out.push(s[i]);
        proof {
            assert(out@ =~= s@.subrange(from as int, i + 1));
        }
        i += 1;
    }
    out
}

/// Appends the bytes of `tail` to `out`.
pub fn append(out: &mut Vec<u8>, tail: &[u8])
    ensures
        final(out)@ == old(out)@ + tail@,
{
    let mut i: usize = 0;
    while i < tail.len()
        invariant
            0 <= i <= tail@.len(),
            out@ == old(out)@ + tail@.take(i as int),
        decreases tail@.len() - i,
    {
        out.push(tail[i]);
        proof {
            assert(out@ =~= old(out)@ + tail@.take(i + 1));
        }
        i += 1;
    }
    proof {
        assert(tail@.take(tail@.len() as int) == tail@);
    }
}

/// An ASCII decimal digit.
pub open spec fn is_digit(b: u8) -> bool {
    48 <= b <= 57
}

/// Every byte is a decimal digit.
pub open spec fn all_digits(s: Seq<u8>) -> bool {
    forall|i: int| 0 <= i < s.len() ==> is_digit(#[trigger] s[i])
}

/// The number that a string of decimal digits writes; zero for the empty string.
pub open spec fn decimal_value(s: Seq<u8>) -> nat
    decreases s.len(),
{
    if s.len() == 0 {
        0
    } else {
        decimal_value(s.drop_last()) * 10 + (s.last() - 48) as nat
    }
}

/// The number written by a prefix of a digit string is no larger than the
/// number written by the whole.
pub proof fn lemma_decimal_prefix(s: Seq<u8>, i: int)
    requires
        all_digits(s),
        0 <= i <= s.len(),
    ensures
        decimal_value(s.take(i)) <= decimal_value(s),
    decreases s.len(),
{
    if i == s.len() {
        assert(s.take(i) == s);
    } else {
        assert(s.take(i) == s.drop_last().take(i));
        lemma_decimal_prefix(s.drop_last(), i);
    }
}

/// Whether every byte of `s` is a decimal digit.
pub fn is_number(s: &[u8]) -> (r: bool)
    ensures
        r == all_digits(s@),
{
    let mut i: usize = 0;
    while i < s.len()
        invariant
            0 <= i <= s@.len(),
            forall|j: int| 0 <= j < i ==> is_digit(#[trigger] s@[j]),
        decreases s@.len() - i,
    {
        if s[i] < 48 || s[i] > 57 {
            return false;
        }
        i += 1;
    }
    true
}

/// The number written by a string of digits, where it fits in a `u64`; `None`
/// where a byte is no digit or the number is too large.
pub fn parse_decimal(s: &[u8]) -> (r: Option<u64>)
    ensures
        r is Some <==> all_digits(s@) && decimal_value(s@) <= u64::MAX,
        r matches Some(v) ==> v == decimal_value(s@),
{
    if !is_number(s) {
        return None;
    }
    let mut acc: u64 = 0;
    let mut i: usize = 0;
    proof {
        assert(s@.take(0) =~= Seq::<u8>::empty());
    }
    while i < s.len()
        invariant
            0 <= i <= s@.len(),
            all_digits(s@),
            acc == decimal_value(s@.take(i as int)),
        decreases s@.len() - i,
    {
        let d: u8 = s[i] - 48;
        proof {
            assert(s@.take(i + 1).drop_last() == s@.take(i as int));
            assert(s@.take(i + 1).last() == s@[i as int]);
        }
        let next: u128 = acc as u128 * 10 + d as u128;
        if next > u64::MAX as u128 {
            proof {
                lemma_decimal_prefix(s@, i + 1);
            }
            return None;
        }
        acc = next as u64;
        i += 1;
    }
    proof {
        assert(s@.take(s@.len() as int) == s@);
    }
    Some(acc)
}

/// The bytes of `s` other than `b`, in order.
pub open spec fn without(s: Seq<u8>, b: u8) -> Seq<u8>
    decreases s.len(),
{
    if s.len() == 0 {
        Seq::<u8>::empty()
    } else if s.last() == b {
        without(s.drop_last(), b)
    } else {
        without(s.drop_last(), b).push(s.last())
    }
}

/// A copy of `s` in which no `b` is left.
pub fn remove_byte(s: &[u8], b: u8) -> (out: Vec<u8>)
    ensures
        out@ == without(s@, b),
{
    let mut out: Vec<u8> = Vec::new();
    let mut i: usize = 0;
    proof {
        assert(s@.take(0) =~= Seq::<u8>::empty());
    }
    while i < s.len()
        invariant
            0 <= i <= s@.len(),
            out@ == without(s@.take(i as int), b),
        decreases s@.len() - i,
    {
        proof {
            assert(s@.take(i + 1).drop_last() == s@.take(i as int));
            assert(s@.take(i + 1).last() == s@[i as int]);
        }
        if s[i] != b {
            out.push(s[i]);
        }
        i += 1;
    }
    proof {
        assert(s@.take(s@.len() as int) == s@);
    }
    out
}

/// The decimal digits of a number, without leading zeros; `0` for zero.
pub open spec fn digits_of(n: nat) -> Seq<u8>
    decreases n,
{
    if n < 10 {
        seq![(48 + n) as u8]
    } else {
        digits_of(n / 10).push((48 + n % 10) as u8)
    }
}

/// Writes a number in decimal digits.
pub fn write_decimal(n: u128) -> (out: Vec<u8>)
    ensures
        out@ == digits_of(n as nat),
    decreases n,
{
    if n < 10 {
        let mut out: Vec<u8> = Vec::new();
        out.push(48 + n as u8);
        proof {
            assert(out@ =~= digits_of(n as nat));
        }
        out
    } else {
        let mut out = write_decimal(n / 10);
        out.push(48 + (n % 10) as u8);
        out
    }
}

/// A number of hundredths as a decimal number with two places after the point.
pub open spec fn two_places(hundredths: nat) -> Seq<u8> {
    digits_of(hundredths / 100) + seq![
        46u8,
        (48 + (hundredths % 100) / 10) as u8,
        (48 + hundredths % 10) as u8,
    ]
}

/// Writes a number of hundredths with two places after the point.
pub fn write_two_places(hundredths: u128) -> (out: Vec<u8>)
    ensures
        out@ == two_places(hundredths as nat),
{
    let mut out = write_decimal(hundredths / 100);
    out.push(46u8);
    out.push(48 + ((hundredths % 100) / 10) as u8);
    out.push(48 + (hundredths % 10) as u8);
    proof {
        assert(out@ =~= two_places(hundredths as nat));
    }
    out
}

} // verus!

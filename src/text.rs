//! Text building blocks: appending to strings, and decimal rendering of
//! integers.

use vstd::prelude::*;

verus! {

/// Relies on `String::push`: the character is appended at the end.
#[verifier::external_body]
pub(crate) fn push_char(out: &mut String, c: char)
    ensures
        final(out)@ == old(out)@.push(c),
{
    out.push(c)
}

/// Appends `s` to `out`.
pub(crate) fn push_str(out: &mut String, s: &str)
    ensures
        final(out)@ == old(out)@ + s@,
{
    out.append(s);
}

/// The character of a decimal digit.
pub open spec fn digit_char(d: nat) -> char
    recommends
        d < 10,
{
    ((d + 48) as u8) as char
}

/// The decimal digits of `n`, most significant first, without leading zeros
/// (zero is the single digit `0`).
pub open spec fn digits(n: nat) -> Seq<char>
    decreases n,
{
    if n < 10 {
        seq![digit_char(n)]
    } else {
        digits(n / 10).push(digit_char(n % 10))
    }
}

/// The decimal text of an integer: a minus sign for negative values, then
/// the digits of its magnitude.
pub open spec fn int_text(v: int) -> Seq<char> {
    if v < 0 {
        seq!['-'] + digits((-v) as nat)
    } else {
        digits(v as nat)
    }
}

/// Appends the decimal digits of `n`.
pub(crate) fn push_digits(out: &mut String, n: u64)
    ensures
        final(out)@ == old(out)@ + digits(n as nat),
    decreases n,
{
    if n >= 10 {
        push_digits(out, n / 10);
    }
    let d: u8 = (n % 10) as u8;
    push_char(out, (d + 48) as char);
}

/// Appends the decimal text of `v`.
pub(crate) fn push_int(out: &mut String, v: i64)
    ensures
        final(out)@ == old(out)@ + int_text(v as int),
{
    if v < 0 {
        push_char(out, '-');
        let magnitude: u64 = ((-(v + 1)) as u64) + 1;
        push_digits(out, magnitude);
        assert(final(out)@ =~= old(out)@ + int_text(v as int));
    } else {
        push_digits(out, v as u64);
    }
}

/// `digits` with its trailing zeros taken off the fraction: a value of
/// `digits × 10^-scale` written with the smallest scale that holds it.
pub open spec fn normalized(digits: nat, scale: nat) -> (nat, nat)
    decreases scale,
{
    if scale > 0 && digits % 10 == 0 {
        normalized(digits / 10, (scale - 1) as nat)
    } else {
        (digits, scale)
    }
}

/// `n` zero digits.
pub open spec fn zeros(n: nat) -> Seq<char> {
    Seq::new(n, |i: int| '0')
}

/// The digit sequence `ds` read with `scale` digits after the point: a
/// leading `0.` and padding zeros where `ds` is not longer than `scale`, and
/// no point at all where `scale` is zero.
pub open spec fn fixed_point_text(ds: Seq<char>, scale: nat) -> Seq<char> {
    if scale == 0 {
        ds
    } else if ds.len() <= scale {
        seq!['0', '.'] + zeros((scale - ds.len()) as nat) + ds
    } else {
        ds.take(ds.len() - scale) + seq!['.'] + ds.skip(ds.len() - scale)
    }
}

/// The shortest decimal text of `±magnitude × 10^-scale`: no trailing zeros
/// after the point, and no point for a whole number (`1.0` is written `1`).
pub open spec fn decimal_text(negative: bool, magnitude: nat, scale: nat) -> Seq<char> {
    let m = normalized(magnitude, scale);
    let sign = if negative {
        seq!['-']
    } else {
        Seq::<char>::empty()
    };
    sign + fixed_point_text(digits(m.0), m.1)
}

/// The decimal digits of `n`, as a vector.
pub(crate) fn digit_chars(n: u64) -> (r: Vec<char>)
    ensures
        r@ == digits(n as nat),
    decreases n,
{
    let d: u8 = (n % 10) as u8;
    if n >= 10 {
        let mut v = digit_chars(n / 10);
        v.push((d + 48) as char);
        v
    } else {
        let mut v: Vec<char> = Vec::new();
        v.push((d + 48) as char);
        assert(v@ =~= digits(n as nat));
        v
    }
}

/// Appends the characters `v[from..to]`.
pub(crate) fn push_chars(out: &mut String, v: &Vec<char>, from: usize, to: usize)
    requires
        from <= to <= v@.len(),
    ensures
        final(out)@ == old(out)@ + v@.subrange(from as int, to as int),
{
    let mut i: usize = from;
    while i < to
        invariant
            from <= i <= to <= v@.len(),
            out@ == old(out)@ + v@.subrange(from as int, i as int),
        decreases to - i,
    {
        push_char(out, v[i]);
        i = i + 1;
        assert(out@ =~= old(out)@ + v@.subrange(from as int, i as int));
    }
}

/// Appends the shortest decimal text of `±magnitude × 10^-scale`.
pub(crate) fn push_decimal(out: &mut String, negative: bool, magnitude: u64, scale: u8)
    ensures
        final(out)@ == old(out)@ + decimal_text(negative, magnitude as nat, scale as nat),
{
    let mut m: u64 = magnitude;
    let mut s: u8 = scale;
    while s > 0 && m % 10 == 0
        invariant
            normalized(m as nat, s as nat) == normalized(magnitude as nat, scale as nat),
        decreases s,
    {
        m = m / 10;
        s = s - 1;
    }
    assert(normalized(m as nat, s as nat) == (m as nat, s as nat));
    if negative {
        push_char(out, '-');
    }
    let ghost signed = out@;
    let ds = digit_chars(m);
    let len = ds.len();
    let scale_len = s as usize;
    if s == 0 {
        push_chars(out, &ds, 0, len);
    } else if len <= scale_len {
        push_char(out, '0');
        push_char(out, '.');
        let mut k: usize = len;
        while k < scale_len
            invariant
                len <= k <= scale_len,
                out@ == signed + seq!['0', '.'] + zeros((k - len) as nat),
            decreases scale_len - k,
        {
            push_char(out, '0');
            k = k + 1;
            assert(out@ =~= signed + seq!['0', '.'] + zeros((k - len) as nat));
        }
        push_chars(out, &ds, 0, len);
    } else {
        push_chars(out, &ds, 0, len - scale_len);
        push_char(out, '.');
        push_chars(out, &ds, len - scale_len, len);
    }
    assert(ds@.subrange(0, len as int) =~= ds@);
    assert(ds@.subrange(0, len - scale_len) =~= ds@.take(len - scale_len));
    assert(ds@.subrange(len - scale_len, len as int) =~= ds@.skip(len - scale_len));
    assert(final(out)@ =~= old(out)@ + decimal_text(negative, magnitude as nat, scale as nat));
}

} // verus!

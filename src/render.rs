use vstd::prelude::*;

use vstd::arithmetic::div_mod::lemma_div_decreases;

verus! {

/// The ASCII digit for `d` (below 16), in upper or lower case.
pub open spec fn digit_char(d: nat, upper: bool) -> u8 {
    if d < 10 {
        (48 + d) as u8
    } else if upper {
        (55 + d) as u8
    } else {
        (87 + d) as u8
    }
}

/// `n` written in `base`, with leading zeros up to `width` digits; nothing at
/// all for zero at width zero.
pub open spec fn radix(n: nat, base: nat, width: nat, upper: bool) -> Seq<u8>
    decreases n, width,
    via radix_decreases
{
    if base < 2 || (n == 0 && width == 0) {
        Seq::empty()
    } else {
        radix(n / base, base, if width == 0 { 0 } else { (width - 1) as nat }, upper)
            + seq![digit_char(n % base, upper)]
    }
}

#[via_fn]
proof fn radix_decreases(n: nat, base: nat, width: nat, upper: bool) {
    if !(base < 2 || (n == 0 && width == 0)) {
        if n > 0 {
            lemma_div_decreases(n as int, base as int);
        } else {
            assert(n / base == 0);
        }
    }
}

/// `n` spaces.
pub open spec fn spaces(n: nat) -> Seq<u8> {
    Seq::new(n, |i: int| 32u8)
}

/// The fields, one space between each two.
pub open spec fn join(fields: Seq<Seq<u8>>) -> Seq<u8>
    decreases fields.len(),
{
    if fields.len() == 0 {
        Seq::empty()
    } else if fields.len() == 1 {
        fields[0]
    } else {
        join(fields.drop_last()) + seq![32u8] + fields.last()
    }
}

/// Joining one field more.
pub proof fn lemma_join_step(fields: Seq<Seq<u8>>, i: int)
    requires
        0 <= i < fields.len(),
    ensures
        join(fields.take(i + 1)) == if i == 0 {
            fields[0]
        } else {
            join(fields.take(i)) + seq![32u8] + fields[i]
        },
{
    assert(fields.take(i + 1).drop_last() =~= fields.take(i));
    if i == 0 {
        assert(fields.take(1).len() == 1);
    }
}

/// Joined fields of `w` characters each take one more column per field.
pub proof fn lemma_join_len(fields: Seq<Seq<u8>>, w: nat)
    requires
        fields.len() > 0,
        forall|i: int| 0 <= i < fields.len() ==> (#[trigger] fields[i]).len() == w,
    ensures
        join(fields).len() == fields.len() * (w + 1) - 1,
    decreases fields.len(),
{
    if fields.len() > 1 {
        lemma_join_len(fields.drop_last(), w);
        assert(fields.last().len() == w);
        assert((fields.len() - 1) * (w + 1) - 1 + 1 + w == fields.len() * (w + 1) - 1)
            by (nonlinear_arith);
    }
}

fn digit_byte(d: u128, upper: bool) -> (r: u8)
    requires
        d < 16,
    ensures
        r == digit_char(d as nat, upper),
{
    if d < 10 {
        (48 + d) as u8
    } else if upper {
        (55 + d) as u8
    } else {
        (87 + d) as u8
    }
}

/// Appends `n` in `base` with leading zeros up to `width` digits.
pub fn push_radix(out: &mut Vec<u8>, n: u128, base: u128, width: usize, upper: bool)
    requires
        2 <= base <= 16,
    ensures
        final(out)@ == old(out)@ + radix(n as nat, base as nat, width as nat, upper),
    decreases n, width,
{
    if n == 0 && width == 0 {
        assert(old(out)@ + Seq::<u8>::empty() =~= old(out)@);
        return;
    }
    let w = if width == 0 {
        0
    } else {
        width - 1
    };
    proof {
        if n > 0 {
            lemma_div_decreases(n as int, base as int);
        }
    }
    push_radix(out, n / base, base, w, upper);
    out.push(digit_byte(n % base, upper));
    assert(final(out)@ =~= old(out)@ + radix(n as nat, base as nat, width as nat, upper));
}

/// Appends `n` spaces.
pub fn push_spaces(out: &mut Vec<u8>, n: usize)
    ensures
        final(out)@ == old(out)@ + spaces(n as nat),
{
    let ghost start = out@;
    let mut i: usize = 0;
    while i < n
        invariant
            i <= n,
            out@ == start + spaces(i as nat),
        decreases n - i,
    {
        out.push(32u8);
        i += 1;
        assert(out@ =~= start + spaces(i as nat));
    }
}

} // verus!

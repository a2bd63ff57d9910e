use vstd::prelude::*;

verus! {

/// The decimal digits of a number, most significant first, as ASCII bytes.
pub open spec fn decimal(n: nat) -> Seq<u8>
    decreases n,
{
    if n < 10 {
        seq![(48 + n) as u8]
    } else {
        decimal(n / 10).push((48 + n % 10) as u8)
    }
}

/// Writes a number in decimal.
pub fn decimal_bytes(n: usize) -> (r: Vec<u8>)
    ensures
        r@ == decimal(n as nat),
{
    let mut reversed: Vec<u8> = Vec::new();
    let mut rest: usize = n;
    while rest >= 10
        invariant
            decimal(n as nat) == decimal(rest as nat) + reversed@.reverse(),
        decreases rest,
    {
        let digit: u8 = 48 + (rest % 10) as u8;
        proof {
            let before = reversed@;
            assert(before.push(digit).reverse() =~= seq![digit] + before.reverse());
            assert(decimal(rest as nat) == decimal((rest / 10) as nat).push(digit));
            assert(decimal((rest / 10) as nat).push(digit) + before.reverse() =~= decimal(
                (rest / 10) as nat,
            ) + (seq![digit] + before.reverse()));
        }
        reversed.push(digit);
        rest = rest / 10;
    }
    let mut r: Vec<u8> = Vec::new();
    r.push(48 + rest as u8);
    let mut i: usize = reversed.len();
    while i > 0
        invariant
            i <= reversed@.len(),
            r@ == decimal(rest as nat) + reversed@.reverse().take(reversed@.len() - i),
        decreases i,
    {
        i -= 1;
        r.push(reversed[i]);
        proof {
            let rev = reversed@.reverse();
            let k = reversed@.len() - i;
            assert(rev.take(k) =~= rev.take(k - 1).push(reversed@[i as int]));
            assert(r@ =~= decimal(rest as nat) + rev.take(k));
        }
    }
    proof {
        assert(reversed@.reverse().take(reversed@.len() as int) =~= reversed@.reverse());
    }
    r
}

/// `text` behind as many copies of `fill` as bring it to `width` bytes.
pub open spec fn padded_left(text: Seq<u8>, width: nat, fill: u8) -> Seq<u8> {
    if text.len() < width {
        Seq::new((width - text.len()) as nat, |i: int| fill) + text
    } else {
        text
    }
}

/// `text` before as many spaces as bring it to `width` bytes.
pub open spec fn padded_right(text: Seq<u8>, width: nat) -> Seq<u8> {
    if text.len() < width {
        text + Seq::new((width - text.len()) as nat, |i: int| 32u8)
    } else {
        text
    }
}

/// Appends `fill` to `text` `count` times.
pub fn append_fill(text: &mut Vec<u8>, count: usize, fill: u8)
    ensures
        final(text)@ == old(text)@ + Seq::new(count as nat, |i: int| fill),
{
    let mut i: usize = 0;
    proof {
        assert(text@ =~= old(text)@ + Seq::new(0, |i: int| fill));
    }
    while i < count
        invariant
            i <= count,
            text@ == old(text)@ + Seq::new(i as nat, |i: int| fill),
        decreases count - i,
    {
        text.push(fill);
        proof {
            assert(text@ =~= old(text)@ + Seq::new((i + 1) as nat, |i: int| fill));
        }
        i += 1;
    }
}

/// Appends `tail` to `text`, behind as many copies of `fill` as bring it to `width` bytes.
pub fn append_padded_left(text: &mut Vec<u8>, tail: &[u8], width: usize, fill: u8)
    ensures
        final(text)@ == old(text)@ + padded_left(tail@, width as nat, fill),
{
    if tail.len() < width {
        append_fill(text, width - tail.len(), fill);
    }
    append_bytes(text, tail);
    proof {
        assert(text@ =~= old(text)@ + padded_left(tail@, width as nat, fill));
    }
}

/// Appends `tail` to `text`, before as many spaces as bring it to `width` bytes.
pub fn append_padded_right(text: &mut Vec<u8>, tail: &[u8], width: usize)
    ensures
        final(text)@ == old(text)@ + padded_right(tail@, width as nat),
{
    append_bytes(text, tail);
    if tail.len() < width {
        append_fill(text, width - tail.len(), 32);
    }
    proof {
        assert(text@ =~= old(text)@ + padded_right(tail@, width as nat));
    }
}

/// Appends the bytes of `tail` to `text`.
pub fn append_bytes(text: &mut Vec<u8>, tail: &[u8])
    ensures
        final(text)@ == old(text)@ + tail@,
{
    let mut i: usize = 0;
    while i < tail.len()
        invariant
            i <= tail@.len(),
            text@ == old(text)@ + tail@.take(i as int),
        decreases tail@.len() - i,
    {
        text.push(tail[i]);
        proof {
            assert(tail@.take(i + 1) =~= tail@.take(i as int).push(tail@[i as int]));
            assert(text@ =~= old(text)@ + tail@.take(i + 1));
        }
        i += 1;
    }
    proof {
        assert(tail@.take(i as int) =~= tail@);
    }
}

} // verus!

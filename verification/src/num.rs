use vstd::prelude::*;

verus! {

/// Append every byte of `src` to the end of `dst`.
pub fn push_all(dst: &mut Vec<u8>, src: &[u8])
    ensures
        final(dst)@ == old(dst)@ + src@,
{
    let ghost dst0: Seq<u8> = dst@;
    let n = src.len();
    let mut j: usize = 0;
    while j < n
        invariant
            j <= n,
            n == src@.len(),
            dst@ == dst0 + src@.take(j as int),
        decreases n - j,
    {
        dst.push(src[j]);
        proof {
            assert(src@.take(j + 1) =~= src@.take(j as int).push(src@[j as int]));
        }
        j += 1;
    }
    proof {
        assert(src@.take(n as int) =~= src@);
    }
}

/// Copy the bytes of `src` at positions `a..b` into a fresh vector.
pub fn copy_range(src: &[u8], a: usize, b: usize) -> (r: Vec<u8>)
    requires
        a <= b <= src@.len(),
    ensures
        r@ == src@.subrange(a as int, b as int),
{
    let mut r: Vec<u8> = Vec::new();
    let mut j: usize = a;
    while j < b
        invariant
            a <= j <= b <= src@.len(),
            r@ == src@.subrange(a as int, j as int),
        decreases b - j,
    {
        r.push(src[j]);
        proof {
            assert(src@.subrange(a as int, j + 1) =~= src@.subrange(a as int, j as int).push(
                src@[j as int],
            ));
        }
        j += 1;
    }
    r
}

/// Decimal rendering of a non-negative integer, most significant digit first,
/// with no leading zeros (a single `'0'` for zero).
pub open spec fn dec_of(n: int) -> Seq<u8>
    decreases n,
{
    if n <= 0 {
        seq![48u8]
    } else if n < 10 {
        seq![(48 + n) as u8]
    } else {
        dec_of(n / 10) + seq![(48 + n % 10) as u8]
    }
}

/// Render `n` in decimal.
pub fn dec_bytes(n: usize) -> (r: Vec<u8>)
    ensures
        r@ == dec_of(n as int),
    decreases n,
{
    if n < 10 {
        let mut r: Vec<u8> = Vec::new();
        r.push(48 + (n as u8));
        proof {
            assert(r@ =~= dec_of(n as int));
        }
        r
    } else {
        let mut r = dec_bytes(n / 10);
        r.push(48 + ((n % 10) as u8));
        proof {
            assert(r@ =~= dec_of(n as int));
        }
        r
    }
}

/// One lowercase hexadecimal digit for a value in `0..16`.
pub open spec fn hex_digit(d: int) -> u8
    recommends
        0 <= d < 16,
{
    if d < 10 {
        (48 + d) as u8
    } else {
        (87 + d) as u8
    }
}

/// Fixed-width lowercase hexadecimal rendering of `v`: exactly `n` digits,
/// most significant first, dropping any digits beyond the `n` lowest.
pub open spec fn hex_digits(v: int, n: nat) -> Seq<u8>
    decreases n,
{
    if n == 0 {
        Seq::empty()
    } else {
        hex_digits(v / 16, (n - 1) as nat) + seq![hex_digit(v % 16)]
    }
}

/// Render `v` as exactly `n` lowercase hexadecimal digits.
pub fn hex_fixed(v: usize, n: u8) -> (r: Vec<u8>)
    ensures
        r@ == hex_digits(v as int, n as nat),
    decreases n,
{
    if n == 0 {
        let r: Vec<u8> = Vec::new();
        proof {
            assert(r@ =~= hex_digits(v as int, 0));
        }
        r
    } else {
        let mut r = hex_fixed(v / 16, n - 1);
        let d = (v % 16) as u8;
        r.push(if d < 10 { 48 + d } else { 87 + d });
        proof {
            assert(r@ =~= hex_digits(v as int, n as nat));
        }
        r
    }
}

pub proof fn lemma_hex_digits_len(v: int, n: nat)
    ensures
        hex_digits(v, n).len() == n,
    decreases n,
{
    if n > 0 {
        lemma_hex_digits_len(v / 16, (n - 1) as nat);
    }
}

/// How many times the byte `c` occurs in `s`.
pub open spec fn count_byte(s: Seq<u8>, c: u8) -> int
    decreases s.len(),
{
    if s.len() == 0 {
        0
    } else {
        count_byte(s.drop_last(), c) + if s.last() == c {
            1int
        } else {
            0int
        }
    }
}

pub proof fn lemma_count_byte_concat(a: Seq<u8>, b: Seq<u8>, c: u8)
    ensures
        count_byte(a + b, c) == count_byte(a, c) + count_byte(b, c),
    decreases b.len(),
{
    if b.len() == 0 {
        assert(a + b =~= a);
    } else {
        lemma_count_byte_concat(a, b.drop_last(), c);
        assert((a + b).drop_last() =~= a + b.drop_last());
        assert((a + b).last() == b.last());
    }
}

pub proof fn lemma_count_byte_absent(s: Seq<u8>, c: u8)
    requires
        forall|i: int| 0 <= i < s.len() ==> s[i] != c,
    ensures
        count_byte(s, c) == 0,
    decreases s.len(),
{
    if s.len() > 0 {
        lemma_count_byte_absent(s.drop_last(), c);
    }
}

/// `n` space bytes.
pub open spec fn spaces(n: nat) -> Seq<u8> {
    Seq::new(n, |i: int| 32u8)
}

/// Append `n` space bytes to `dst`.
pub fn push_spaces(dst: &mut Vec<u8>, n: usize)
    ensures
        final(dst)@ == old(dst)@ + spaces(n as nat),
{
    let ghost dst0: Seq<u8> = dst@;
    let mut j: usize = 0;
    while j < n
        invariant
            j <= n,
            dst@ == dst0 + spaces(j as nat),
        decreases n - j,
    {
        dst.push(32);
        proof {
            assert(spaces((j + 1) as nat) =~= spaces(j as nat).push(32u8));
        }
        j += 1;
    }
}

} // verus!

//! Checked integer helpers and the record checksum.
use vstd::prelude::*;
use crate::error::AssertionError;
use crate::binary_storage::ERR_ARITHMETIC_OVERFLOW;

verus! {

/// Converts `n` to `usize`, failing when it does not fit.
pub fn u64_as_usize(n: u64) -> (r: Result<usize, AssertionError>)
    ensures
        r is Ok <==> n <= usize::MAX,
        r matches Ok(v) ==> v == n,
        r matches Err(e) ==> e@ == ERR_ARITHMETIC_OVERFLOW@,
{
    if n > usize::MAX as u64 {
        return Err(AssertionError::new(ERR_ARITHMETIC_OVERFLOW));
    }
    Ok(n as usize)
}

/// `a + b`, failing on overflow.
pub fn usize_add(a: usize, b: usize) -> (r: Result<usize, AssertionError>)
    ensures
        r is Ok <==> a + b <= usize::MAX,
        r matches Ok(v) ==> v == a + b,
        r matches Err(e) ==> e@ == ERR_ARITHMETIC_OVERFLOW@,
{
    match a.checked_add(b) {
        Some(n) => Ok(n),
        None => Err(AssertionError::new(ERR_ARITHMETIC_OVERFLOW)),
    }
}

/// `a + b`, failing on overflow.
pub fn u64_add(a: u64, b: u64) -> (r: Result<u64, AssertionError>)
    ensures
        r is Ok <==> a + b <= u64::MAX,
        r matches Ok(v) ==> v == a + b,
        r matches Err(e) ==> e@ == ERR_ARITHMETIC_OVERFLOW@,
{
    match a.checked_add(b) {
        Some(n) => Ok(n),
        None => Err(AssertionError::new(ERR_ARITHMETIC_OVERFLOW)),
    }
}

/// The exclusive-or of all bytes of `s` (0 for no bytes).
pub open spec fn xor_of(s: Seq<u8>) -> u8
    decreases s.len(),
{
    if s.len() == 0 {
        0
    } else {
        xor_of(s.drop_last()) ^ s.last()
    }
}

/// The exclusive-or of all bytes, used as a record checksum.
pub fn xor_checksum(bytes: &[u8]) -> (r: u8)
    ensures
        r == xor_of(bytes@),
{
    let mut res: u8 = 0;
    let mut i: usize = 0;
    while i < bytes.len()
        invariant
            i <= bytes@.len(),
            res == xor_of(bytes@.subrange(0, i as int)),
        decreases bytes@.len() - i,
    {
        assert(bytes@.subrange(0, i as int + 1).drop_last() =~= bytes@.subrange(0, i as int));
        res = res ^ bytes[i];
        i += 1;
    }
    assert(bytes@.subrange(0, i as int) =~= bytes@);
    res
}

} // verus!

verus! {

/// `n` is a power of two.
pub open spec fn is_power_of_2(n: int) -> bool {
    vstd::arithmetic::power2::is_pow2(n)
}

proof fn lemma_pow2_bits(n: u64)
    ensures
        (n != 0 && n & ((n - 1) as u64) == 0) == is_power_of_2(n as int),
    decreases n,
{
    reveal(vstd::arithmetic::power2::is_pow2);
    if n == 0 {
    } else if n == 1 {
        assert(1u64 & 0u64 == 0) by (bit_vector);
    } else if n % 2 == 1 {
        assert(n % 2 == 1 && n > 1 ==> n & ((n - 1) as u64) != 0) by (bit_vector);
    } else {
        let h: u64 = n / 2;
        assert(n % 2 == 0 && n >= 2 && h == n / 2 ==> ((n & ((n - 1) as u64) == 0) == (h & ((h - 1) as u64) == 0)))
            by (bit_vector);
        lemma_pow2_bits(h);
    }
}

/// Whether `n` is a power of two.
pub fn is_power_of_two_u64(n: u64) -> (r: bool)
    ensures
        r == is_power_of_2(n as int),
{
    proof {
        lemma_pow2_bits(n);
    }
    n != 0 && (n & (n - 1)) == 0
}

} // verus!

verus! {

/// `bytes` with the bytes from `offset` on replaced by `data`.
pub open spec fn splice(bytes: Seq<u8>, offset: int, data: Seq<u8>) -> Seq<u8> {
    bytes.subrange(0, offset) + data + bytes.subrange(offset + data.len(), bytes.len() as int)
}

/// `bytes` extended with zero bytes to length `len` (unchanged when already that long).
pub open spec fn zero_extend(bytes: Seq<u8>, len: nat) -> Seq<u8> {
    if len <= bytes.len() {
        bytes
    } else {
        bytes + Seq::new((len - bytes.len()) as nat, |i: int| 0u8)
    }
}

/// The number of `m`-sized steps needed to cover `n`.
pub open spec fn ceil_div(n: nat, m: nat) -> nat
    recommends
        m > 0,
{
    if n % m == 0 {
        n / m
    } else {
        n / m + 1
    }
}

/// The smallest multiple of `m` that is at least `n`.
pub open spec fn round_up(n: nat, m: nat) -> nat
    recommends
        m > 0,
{
    ceil_div(n, m) * m
}

/// Every byte of `s` equals `val`.
pub open spec fn all_equal(s: Seq<u8>, val: u8) -> bool {
    forall|i: int| 0 <= i < s.len() ==> s[i] == val
}

} // verus!

verus! {

/// A multiple of `m` rounded up from `n` is at least `n` and below `n + m`.
pub proof fn lemma_round_up(n: nat, m: nat)
    requires
        m > 0,
    ensures
        n <= round_up(n, m) < n + m,
        round_up(n, m) % m == 0,
{
    let q = n / m;
    assert(q * m <= n < q * m + m) by (nonlinear_arith)
        requires
            q == n / m,
            m > 0,
    ;
    vstd::arithmetic::div_mod::lemma_mod_multiples_basic(q as int, m as int);
    vstd::arithmetic::div_mod::lemma_mod_multiples_basic(q + 1 as int, m as int);
    if n % m == 0 {
        assert(q * m == n) by (nonlinear_arith)
            requires
                q == n / m,
                n % m == 0,
                m > 0,
        ;
    } else {
        assert(q * m != n) by (nonlinear_arith)
            requires
                q == n / m,
                n % m != 0,
                m > 0,
        ;
        assert((q + 1) * m == q * m + m) by (nonlinear_arith);
    }
}

} // verus!

verus! {

/// Copies `src` into `dst` from position `at` on.
pub fn copy_into(dst: &mut Vec<u8>, at: usize, src: &[u8])
    requires
        at + src@.len() <= old(dst)@.len(),
    ensures
        final(dst)@ == splice(old(dst)@, at as int, src@),
{
    let ghost before = dst@;
    let len = dst.len();
    let mut i: usize = 0;
    while i < src.len()
        invariant
            before.len() == len,
            at + src@.len() <= before.len(),
            i <= src@.len(),
            dst@.len() == before.len(),
            forall|j: int| 0 <= j < at ==> dst@[j] == before[j],
            forall|j: int| at + i <= j < before.len() ==> dst@[j] == before[j],
            forall|j: int| at <= j < at + i ==> dst@[j] == src@[j - at],
        decreases src@.len() - i,
    {
        dst.set(at + i, src[i]);
        i += 1;
    }
    assert(dst@ =~= splice(before, at as int, src@));
}

/// Appends `n` zero bytes to `v`.
pub fn push_zeros(v: &mut Vec<u8>, n: usize)
    requires
        old(v)@.len() + n <= usize::MAX,
    ensures
        final(v)@ == old(v)@ + Seq::new(n as nat, |i: int| 0u8),
{
    let ghost before = v@;
    let mut i: usize = 0;
    while i < n
        invariant
            i <= n,
            v@ == before + Seq::new(i as nat, |j: int| 0u8),
        decreases n - i,
    {
        v.push(0u8);
        i += 1;
        assert(v@ =~= before + Seq::new(i as nat, |j: int| 0u8));
    }
}

} // verus!

verus! {

/// The smaller of two integers.
pub open spec fn min_of(a: int, b: int) -> int {
    if a < b {
        a
    } else {
        b
    }
}

/// The bytes of `data` from `pos` on, at most `len` of them (none when `pos`
/// lies past the end).
pub open spec fn bytes_from(data: Seq<u8>, pos: int, len: int) -> Seq<u8> {
    data.subrange(min_of(pos, data.len() as int), min_of(pos + len, data.len() as int))
}

/// Reads up to `len` bytes of `data` from `pos` on, as a reader limited to
/// `len` bytes does when read to its end.
pub fn read_up_to(data: &[u8], pos: u64, len: u64) -> (r: Vec<u8>)
    ensures
        r@ == bytes_from(data@, pos as int, len as int),
{
    let n = data.len();
    let lo: usize = if pos < n as u64 { pos as usize } else { n };
    let room = (n - lo) as u64;
    let hi: usize = if len < room { lo + len as usize } else { n };
    let mut out: Vec<u8> = Vec::new();
    let mut i: usize = lo;
    while i < hi
        invariant
            lo <= i <= hi <= data@.len(),
            out@ == data@.subrange(lo as int, i as int),
        decreases hi - i,
    {
        out.push(data[i]);
        i += 1;
        assert(out@ =~= data@.subrange(lo as int, i as int));
    }
    out
}

} // verus!

verus! {

/// The smallest multiple of `m` that is at least `n` is at most any multiple
/// of `m` that is at least `n`.
pub proof fn lemma_round_up_least(n: nat, m: nat, k: nat)
    requires
        m > 0,
        k * m >= n,
    ensures
        round_up(n, m) <= k * m,
{
    let q = n / m;
    assert(q * m <= n < q * m + m) by (nonlinear_arith)
        requires
            q == n / m,
            m > 0,
    ;
    if n % m == 0 {
        assert(q * m == n) by (nonlinear_arith)
            requires
                q == n / m,
                n % m == 0,
                m > 0,
        ;
    } else {
        assert(q * m != n) by (nonlinear_arith)
            requires
                q == n / m,
                n % m != 0,
                m > 0,
        ;
        assert(q < k) by (nonlinear_arith)
            requires
                q * m < n,
                k * m >= n,
                q * m <= n,
                m > 0,
        ;
        assert((q + 1) * m <= k * m) by (nonlinear_arith)
            requires
                q + 1 <= k,
                m > 0,
        ;
        assert((q + 1) * m == q * m + m) by (nonlinear_arith);
    }
}

/// Rounding up to a multiple of `m` keeps the order.
pub proof fn lemma_round_up_monotone(a: nat, b: nat, m: nat)
    requires
        m > 0,
        a <= b,
    ensures
        round_up(a, m) <= round_up(b, m),
{
    lemma_round_up(b, m);
    let k = ceil_div(b, m);
    assert(round_up(b, m) == k * m);
    lemma_round_up_least(a, m, k);
}

} // verus!

verus! {

/// `a` comes before `b` in lexicographic byte order.
pub open spec fn seq_less(a: Seq<u8>, b: Seq<u8>) -> bool
    decreases a.len(),
{
    if a.len() == 0 {
        b.len() > 0
    } else if b.len() == 0 {
        false
    } else if a[0] != b[0] {
        a[0] < b[0]
    } else {
        seq_less(a.drop_first(), b.drop_first())
    }
}

/// Whether `a` comes before `b` in lexicographic byte order.
pub fn bytes_less(a: &[u8], b: &[u8]) -> (r: bool)
    ensures
        r == seq_less(a@, b@),
{
    let mut i: usize = 0;
    assert(a@.subrange(0, a@.len() as int) =~= a@);
    assert(b@.subrange(0, b@.len() as int) =~= b@);
    while i < a.len() && i < b.len()
        invariant
            i <= a@.len(),
            i <= b@.len(),
            seq_less(a@, b@) == seq_less(a@.subrange(i as int, a@.len() as int), b@.subrange(i as int, b@.len() as int)),
        decreases a@.len() - i,
    {
        let ghost sa = a@.subrange(i as int, a@.len() as int);
        let ghost sb = b@.subrange(i as int, b@.len() as int);
        if a[i] != b[i] {
            assert(sa[0] == a@[i as int] && sb[0] == b@[i as int]);
            return a[i] < b[i];
        }
        assert(sa.drop_first() =~= a@.subrange(i + 1, a@.len() as int));
        assert(sb.drop_first() =~= b@.subrange(i + 1, b@.len() as int));
        i += 1;
    }
    i < b.len()
}

/// One more stride of `s` from `i` strides, and the offset of `i` strides is
/// not negative.
pub proof fn lemma_stride(i: int, s: int)
    requires
        0 <= i,
        0 <= s,
    ensures
        (i + 1) * s == i * s + s,
        0 <= i * s,
{
    assert((i + 1) * s == i * s + s) by (nonlinear_arith);
    assert(0 <= i * s) by (nonlinear_arith)
        requires
            0 <= i,
            0 <= s,
    ;
}

} // verus!

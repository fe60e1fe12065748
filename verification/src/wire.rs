//! Fixed-width integers as byte strings, in both byte orders.
use vstd::prelude::*;

verus! {

/// `256` to the power `w`.
pub open spec fn pow256(w: nat) -> nat
    decreases w,
{
    if w == 0 {
        1
    } else {
        256 * pow256((w - 1) as nat)
    }
}

/// The low `w` bytes of `n`, most significant first.
pub open spec fn be(n: nat, w: nat) -> Seq<u8>
    decreases w,
{
    if w == 0 {
        Seq::empty()
    } else {
        be(n / 256, (w - 1) as nat).push((n % 256) as u8)
    }
}

/// The number that a big-endian byte string denotes.
pub open spec fn be_val(s: Seq<u8>) -> nat
    decreases s.len(),
{
    if s.len() == 0 {
        0
    } else {
        be_val(s.drop_last()) * 256 + s.last() as nat
    }
}

/// The low `w` bytes of `n`, least significant first.
pub open spec fn le(n: nat, w: nat) -> Seq<u8>
    decreases w,
{
    if w == 0 {
        Seq::empty()
    } else {
        seq![(n % 256) as u8] + le(n / 256, (w - 1) as nat)
    }
}

/// The number that a little-endian byte string denotes.
pub open spec fn le_val(s: Seq<u8>) -> nat
    decreases s.len(),
{
    if s.len() == 0 {
        0
    } else {
        s[0] as nat + 256 * le_val(s.drop_first())
    }
}

/// The big-endian number in the `w` bytes of `s` that start at `at`.
pub open spec fn be_at(s: Seq<u8>, at: int, w: nat) -> nat {
    be_val(s.subrange(at, at + w))
}

pub proof fn lemma_pow256_values()
    ensures
        pow256(0) == 1,
        pow256(1) == 0x100,
        pow256(2) == 0x1_0000,
        pow256(4) == 0x1_0000_0000,
        pow256(8) == 0x1_0000_0000_0000_0000,
        pow256(16) == 0x1_0000_0000_0000_0000_0000_0000_0000_0000,
{
    reveal_with_fuel(pow256, 17);
}

pub proof fn lemma_pow256_positive(w: nat)
    ensures
        pow256(w) >= 1,
    decreases w,
{
    if w > 0 {
        lemma_pow256_positive((w - 1) as nat);
    }
}

pub proof fn lemma_pow256_monotonic(a: nat, b: nat)
    requires
        a <= b,
    ensures
        pow256(a) <= pow256(b),
    decreases b - a,
{
    if a < b {
        lemma_pow256_monotonic(a, (b - 1) as nat);
        lemma_pow256_positive((b - 1) as nat);
    }
}

pub broadcast proof fn lemma_be_len(n: nat, w: nat)
    ensures
        #[trigger] be(n, w).len() == w,
    decreases w,
{
    if w > 0 {
        lemma_be_len(n / 256, (w - 1) as nat);
    }
}

pub broadcast proof fn lemma_le_len(n: nat, w: nat)
    ensures
        #[trigger] le(n, w).len() == w,
    decreases w,
{
    if w > 0 {
        lemma_le_len(n / 256, (w - 1) as nat);
    }
}

pub proof fn lemma_be_val_bound(s: Seq<u8>)
    ensures
        be_val(s) < pow256(s.len()),
    decreases s.len(),
{
    if s.len() > 0 {
        lemma_be_val_bound(s.drop_last());
    }
}

pub proof fn lemma_le_val_bound(s: Seq<u8>)
    ensures
        le_val(s) < pow256(s.len()),
    decreases s.len(),
{
    if s.len() > 0 {
        lemma_le_val_bound(s.drop_first());
    }
}

/// A number that fits in `w` bytes is read back from its big-endian form.
pub proof fn lemma_be_roundtrip(n: nat, w: nat)
    requires
        n < pow256(w),
    ensures
        be_val(be(n, w)) == n,
    decreases w,
{
    if w > 0 {
        let v = (w - 1) as nat;
        assert(n / 256 < pow256(v)) by (nonlinear_arith)
            requires
                n < 256 * pow256(v),
        ;
        lemma_be_roundtrip(n / 256, v);
        assert(be(n, w).drop_last() =~= be(n / 256, v));
        assert(n == (n / 256) * 256 + n % 256) by (nonlinear_arith);
    }
}

/// A number that fits in `w` bytes is read back from its little-endian form.
pub proof fn lemma_le_roundtrip(n: nat, w: nat)
    requires
        n < pow256(w),
    ensures
        le_val(le(n, w)) == n,
    decreases w,
{
    if w > 0 {
        let v = (w - 1) as nat;
        assert(n / 256 < pow256(v)) by (nonlinear_arith)
            requires
                n < 256 * pow256(v),
        ;
        lemma_le_roundtrip(n / 256, v);
        assert(le(n, w).drop_first() =~= le(n / 256, v));
    }
}

/// Every byte string is the big-endian form of the number it denotes.
pub proof fn lemma_be_of_val(s: Seq<u8>)
    ensures
        be(be_val(s), s.len()) == s,
    decreases s.len(),
{
    if s.len() > 0 {
        let t = s.drop_last();
        lemma_be_of_val(t);
        let n = be_val(s);
        assert(n / 256 == be_val(t) && n % 256 == s.last() as nat);
        assert(be(n, s.len()) =~= s);
    } else {
        assert(be(be_val(s), 0) =~= s);
    }
}

/// A one-byte number denotes itself.
pub proof fn lemma_be_one(s: Seq<u8>)
    requires
        s.len() == 1,
    ensures
        be_val(s) == s[0] as nat,
{
    reveal_with_fuel(be_val, 2);
}

/// Appends `n` to `out` as `w` big-endian bytes.
pub fn put_be(out: &mut Vec<u8>, n: u128, w: usize)
    ensures
        final(out)@ == old(out)@ + be(n as nat, w as nat),
    decreases w,
{
    if w > 0 {
        put_be(out, n / 256, w - 1);
        out.push((n % 256) as u8);
    }
    assert(out@ =~= old(out)@ + be(n as nat, w as nat));
}

/// Appends `n` to `out` as `w` little-endian bytes.
pub fn put_le(out: &mut Vec<u8>, n: u128, w: usize)
    ensures
        final(out)@ == old(out)@ + le(n as nat, w as nat),
    decreases w,
{
    if w > 0 {
        out.push((n % 256) as u8);
        put_le(out, n / 256, w - 1);
    }
    assert(out@ =~= old(out)@ + le(n as nat, w as nat));
}

/// Reads the `w`-byte big-endian number at `at`.
pub fn get_be(s: &[u8], at: usize, w: usize) -> (n: u128)
    requires
        at + w <= s@.len(),
        w <= 16,
    ensures
        n as nat == be_at(s@, at as int, w as nat),
        (n as nat) < pow256(w as nat),
    decreases w,
{
    proof {
        lemma_be_val_bound(s@.subrange(at as int, at + w));
        lemma_pow256_monotonic(w as nat, 16);
        lemma_pow256_values();
    }
    if w == 0 {
        0
    } else {
        let high: u128 = get_be(s, at, w - 1);
        assert(at + w <= s.len());
        let low: u8 = s[at + w - 1];
        proof {
            let t = s@.subrange(at as int, at + w);
            assert(t.drop_last() =~= s@.subrange(at as int, at + w - 1));
            assert(t.last() == low);
        }
        high * 256 + low as u128
    }
}

/// Reads the `w`-byte little-endian number at `at`.
pub fn get_le(s: &[u8], at: usize, w: usize) -> (n: u128)
    requires
        at + w <= s@.len(),
        w <= 16,
    ensures
        n as nat == le_val(s@.subrange(at as int, at + w)),
        (n as nat) < pow256(w as nat),
    decreases w,
{
    proof {
        lemma_le_val_bound(s@.subrange(at as int, at + w));
        lemma_pow256_monotonic(w as nat, 16);
        lemma_pow256_values();
    }
    if w == 0 {
        0
    } else {
        let low: u8 = s[at];
        let high: u128 = get_le(s, at + 1, w - 1);
        proof {
            let t = s@.subrange(at as int, at + w);
            assert(t.drop_first() =~= s@.subrange(at + 1, at + w));
            assert(t[0] == low);
        }
        low as u128 + 256 * high
    }
}

/// Appends all of `bytes` to `out`.
pub fn put_bytes(out: &mut Vec<u8>, bytes: &[u8])
    ensures
        final(out)@ == old(out)@ + bytes@,
{
    let mut i: usize = 0;
    while i < bytes.len()
        invariant
            i <= bytes@.len(),
            out@ == old(out)@ + bytes@.subrange(0, i as int),
        decreases bytes@.len() - i,
    {
        out.push(bytes[i]);
        i += 1;
        assert(bytes@.subrange(0, i as int) =~= bytes@.subrange(0, i - 1).push(bytes@[i - 1]));
        assert(out@ =~= old(out)@ + bytes@.subrange(0, i as int));
    }
    assert(bytes@.subrange(0, i as int) =~= bytes@);
}

/// The bytes of `s` from `from` up to `to`, as a vector.
pub fn copy_range(s: &[u8], from: usize, to: usize) -> (out: Vec<u8>)
    requires
        from <= to <= s@.len(),
    ensures
        out@ == s@.subrange(from as int, to as int),
{
    let mut out: Vec<u8> = Vec::new();
    put_bytes(&mut out, vstd::slice::slice_subrange(s, from, to));
    assert(out@ =~= s@.subrange(from as int, to as int));
    out
}

/// The `N` bytes of `s` that start at `at`, as an array.
pub fn copy_array<const N: usize>(s: &[u8], at: usize) -> (out: [u8; N])
    requires
        at + N <= s@.len(),
    ensures
        out@ == s@.subrange(at as int, at + N),
{
    let mut out: [u8; N] = [0u8; N];
    let mut i: usize = 0;
    while i < N
        invariant
            i <= N,
            at + N <= s@.len(),
            forall|j: int| 0 <= j < i ==> out@[j] == s@[at + j],
        decreases N - i,
    {
        assert(at + i < s.len());
        out[i] = s[at + i];
        i += 1;
    }
    assert(out@ =~= s@.subrange(at as int, at + N));
    out
}

/// Whether two byte strings are equal.
pub fn bytes_equal(a: &[u8], b: &[u8]) -> (r: bool)
    ensures
        r == (a@ == b@),
{
    if a.len() != b.len() {
        return false;
    }
    let mut i: usize = 0;
    while i < a.len()
        invariant
            i <= a@.len(),
            a@.len() == b@.len(),
            forall|j: int| 0 <= j < i ==> a@[j] == b@[j],
        decreases a@.len() - i,
    {
        if a[i] != b[i] {
            return false;
        }
        i += 1;
    }
    assert(a@ =~= b@);
    true
}

/// The array whose first `n` bytes are those of `s`, the others zero.
pub open spec fn array_of<const N: usize>(s: Seq<u8>, n: nat) -> [u8; N]
    decreases n,
{
    if n == 0 {
        vstd::array::spec_array_fill_for_copy_type::<u8, N>(0)
    } else {
        vstd::array::spec_array_update(array_of::<N>(s, (n - 1) as nat), n - 1, s[n - 1])
    }
}

/// A byte string of the right length is the contents of an array.
pub proof fn lemma_array_of<const N: usize>(s: Seq<u8>, n: nat)
    requires
        s.len() == N,
        n <= N,
    ensures
        forall|i: int| 0 <= i < n ==> array_of::<N>(s, n)@[i] == s[i],
        n == N ==> array_of::<N>(s, n)@ == s,
    decreases n,
{
    if n > 0 {
        lemma_array_of::<N>(s, (n - 1) as nat);
    }
    if n == N {
        assert(array_of::<N>(s, n)@ =~= s);
    }
}

/// Arrays with the same bytes are the same array.
pub proof fn lemma_array_eq<const N: usize>(a: [u8; N], b: [u8; N])
    requires
        a@ == b@,
    ensures
        a == b,
{
    assert forall|i: int| 0 <= i < N implies a[i] == b[i] by {
        assert(a@[i] == b@[i]);
    }
    assert(a =~= b);
}

/// Big-endian: the first byte counts most.
pub proof fn law_big_endian(s: Seq<u8>)
    ensures
        s.len() == 1 ==> be_val(s) == s[0],
        s.len() == 2 ==> be_val(s) == s[0] * 0x100 + s[1],
        s.len() == 4 ==> be_val(s) == s[0] * 0x100_0000 + s[1] * 0x1_0000 + s[2] * 0x100 + s[3],
        s.len() == 8 ==> be_val(s) == be_val(s.take(4)) * 0x1_0000_0000 + be_val(s.skip(4)),
        be(be_val(s), s.len()) == s,
{
    lemma_be_of_val(s);
    reveal_with_fuel(be_val, 9);
    if s.len() == 4 {
        assert(s.drop_last().drop_last().drop_last().drop_last() =~= Seq::empty());
    }
    if s.len() == 8 {
        let a = s.take(4);
        let b = s.skip(4);
        assert(s.drop_last().drop_last().drop_last().drop_last() =~= a);
        assert(b.drop_last().drop_last().drop_last().drop_last() =~= Seq::empty());
    }
}

/// Little-endian: the first byte counts least.
pub proof fn law_little_endian(s: Seq<u8>)
    ensures
        s.len() == 4 ==> le_val(s) == s[0] + s[1] * 0x100 + s[2] * 0x1_0000 + s[3] * 0x100_0000,
{
    reveal_with_fuel(le_val, 5);
    if s.len() == 4 {
        assert(s.drop_first().drop_first().drop_first().drop_first() =~= Seq::empty());
    }
}

/// Numbers are written with the highest byte first, or last, and read back as they were.
pub proof fn law_numbers_are_read_back(n: u128, w: usize, s: &[u8], at: usize, r: u128, t: u128)
    requires
        w <= 16,
        at + w <= s@.len(),
        call_ensures(get_be, (s, at, w), r),
        call_ensures(get_le, (s, at, w), t),
        (n as nat) < pow256(w as nat),
    ensures
        s@.subrange(at as int, at + w) == be(n as nat, w as nat) ==> r == n,
        s@.subrange(at as int, at + w) == le(n as nat, w as nat) ==> t == n,
        forall|v: &mut Vec<u8>| #[trigger]
            call_ensures(put_be, (v, n, w), ()) ==> final(v)@ == v@ + be(n as nat, w as nat),
        forall|v: &mut Vec<u8>| #[trigger]
            call_ensures(put_le, (v, n, w), ()) ==> final(v)@ == v@ + le(n as nat, w as nat),
{
    lemma_be_roundtrip(n as nat, w as nat);
    lemma_le_roundtrip(n as nat, w as nat);
}

} // verus!

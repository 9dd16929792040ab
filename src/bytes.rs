//! Fixed-width integers as byte sequences, in either byte order.
use vstd::prelude::*;

verus! {

/// `256` raised to the power `n`.
pub open spec fn pow256(n: nat) -> nat
    decreases n,
{
    if n == 0 {
        1
    } else {
        256 * pow256((n - 1) as nat)
    }
}

/// The `n` least significant bytes of `u`, least significant first.
pub open spec fn le_bytes(u: nat, n: nat) -> Seq<u8>
    decreases n,
{
    if n == 0 {
        seq![]
    } else {
        seq![(u % 256) as u8] + le_bytes(u / 256, (n - 1) as nat)
    }
}

/// A byte sequence in the opposite order.
pub open spec fn reversed(b: Seq<u8>) -> Seq<u8> {
    Seq::new(b.len(), |k: int| b[b.len() - 1 - k])
}

/// The `n` least significant bytes of `u`, in the requested order.
pub open spec fn ordered_bytes(u: nat, n: nat, little: bool) -> Seq<u8> {
    if little {
        le_bytes(u, n)
    } else {
        reversed(le_bytes(u, n))
    }
}

/// The unsigned number that a byte sequence holds, least significant byte first.
pub open spec fn le_value(b: Seq<u8>) -> nat
    decreases b.len(),
{
    if b.len() == 0 {
        0
    } else {
        b[0] as nat + 256 * le_value(b.drop_first())
    }
}

/// The unsigned number that a byte sequence holds in the given order.
pub open spec fn unsigned_value(b: Seq<u8>, little: bool) -> nat {
    if little {
        le_value(b)
    } else {
        le_value(reversed(b))
    }
}

/// The two's complement pattern of `v` in `n` bytes.
pub open spec fn twos(v: int, n: nat) -> nat {
    if v < 0 {
        (v + pow256(n)) as nat
    } else {
        v as nat
    }
}

/// The integer that `n` bytes hold, read as signed or unsigned in the given order.
pub open spec fn int_value(b: Seq<u8>, little: bool, signed: bool) -> int {
    let u = unsigned_value(b, little);
    if signed && 2 * u >= pow256(b.len()) {
        u - pow256(b.len())
    } else {
        u as int
    }
}

/// The bytes that encode the integer `v` in `n` bytes and the given order.
pub open spec fn int_bytes(v: int, n: nat, little: bool) -> Seq<u8> {
    ordered_bytes(twos(v, n), n, little)
}

pub proof fn lemma_le_bytes_len(u: nat, n: nat)
    ensures
        le_bytes(u, n).len() == n,
    decreases n,
{
    if n > 0 {
        lemma_le_bytes_len(u / 256, (n - 1) as nat);
    }
}

pub proof fn lemma_pow256_positive(n: nat)
    ensures
        pow256(n) >= 1,
    decreases n,
{
    if n > 0 {
        lemma_pow256_positive((n - 1) as nat);
    }
}

/// Reading back `n` bytes of `u` gives `u` when it fits.
pub proof fn lemma_le_round_trip(u: nat, n: nat)
    requires
        u < pow256(n),
    ensures
        le_value(le_bytes(u, n)) == u,
    decreases n,
{
    if n > 0 {
        let rest = le_bytes(u / 256, (n - 1) as nat);
        assert(le_bytes(u, n).drop_first() =~= rest);
        let p = pow256((n - 1) as nat);
        assert(u / 256 < p) by (nonlinear_arith)
            requires
                u < 256 * p,
        ;
        lemma_le_round_trip(u / 256, (n - 1) as nat);
        assert(u == u % 256 + 256 * (u / 256)) by (nonlinear_arith);
    }
}

pub proof fn lemma_reversed_twice(b: Seq<u8>)
    ensures
        reversed(reversed(b)) == b,
{
    assert(reversed(reversed(b)) =~= b);
}

/// Reading back the bytes of an unsigned number, in either order, gives the number.
pub proof fn lemma_unsigned_round_trip(u: nat, n: nat, little: bool)
    requires
        u < pow256(n),
    ensures
        unsigned_value(ordered_bytes(u, n, little), little) == u,
        ordered_bytes(u, n, little).len() == n,
{
    lemma_le_round_trip(u, n);
    lemma_le_bytes_len(u, n);
    lemma_reversed_twice(le_bytes(u, n));
}

/// Encoding an integer that fits in `n` bytes and reading the bytes back under
/// the same byte order and signedness gives the integer again.
pub proof fn lemma_int_round_trip(v: int, n: nat, little: bool, signed: bool)
    requires
        n >= 1,
        signed ==> -pow256(n) <= 2 * v < pow256(n),
        !signed ==> 0 <= v < pow256(n),
    ensures
        int_bytes(v, n, little).len() == n,
        int_value(int_bytes(v, n, little), little, signed) == v,
{
    lemma_pow256_positive(n);
    lemma_unsigned_round_trip(twos(v, n), n, little);
}

/// Appends the `n` least significant bytes of `u` to `out`, in the requested order.
pub fn push_ordered(out: &mut Vec<u8>, u: u128, n: usize, little: bool)
    requires
        n <= 16,
    ensures
        final(out)@ == old(out)@ + ordered_bytes(u as nat, n as nat, little),
{
    let mut le: Vec<u8> = Vec::new();
    let mut x: u128 = u;
    let mut k: usize = 0;
    while k < n
        invariant
            k <= n,
            le@ + le_bytes(x as nat, (n - k) as nat) == le_bytes(u as nat, n as nat),
        decreases n - k,
    {
        let ghost before = le@;
        le.push((x % 256) as u8);
        assert(le_bytes(x as nat, (n - k) as nat) =~= seq![(x % 256) as u8] + le_bytes(
            (x / 256) as nat,
            (n - k - 1) as nat,
        ));
        assert(le@ + le_bytes((x / 256) as nat, (n - k - 1) as nat) =~= before + le_bytes(
            x as nat,
            (n - k) as nat,
        ));
        x = x / 256;
        k = k + 1;
    }
    assert(le_bytes(x as nat, 0) =~= seq![]);
    assert(le@ =~= le_bytes(u as nat, n as nat));
    proof {
        lemma_le_bytes_len(u as nat, n as nat);
    }
    if little {
        let mut j: usize = 0;
        while j < n
            invariant
                j <= n,
                le@.len() == n,
                out@ == old(out)@ + le@.subrange(0, j as int),
            decreases n - j,
        {
            out.push(le[j]);
            assert(le@.subrange(0, j + 1) =~= le@.subrange(0, j as int).push(le@[j as int]));
            j = j + 1;
        }
        assert(le@.subrange(0, n as int) =~= le@);
    } else {
        let mut j: usize = n;
        while j > 0
            invariant
                j <= n,
                le@.len() == n,
                out@ == old(out)@ + reversed(le@).subrange(0, (n - j) as int),
            decreases j,
        {
            out.push(le[j - 1]);
            assert(reversed(le@).subrange(0, (n - j + 1) as int) =~= reversed(le@).subrange(
                0,
                (n - j) as int,
            ).push(le@[j - 1]));
            j = j - 1;
        }
        assert(reversed(le@).subrange(0, n as int) =~= reversed(le@));
    }
}

} // verus!

//! Little-endian integers read out of raw record bytes.
use vstd::prelude::*;

verus! {

/// `256^n`.
pub open spec fn pow256(n: nat) -> nat
    decreases n,
{
    if n == 0 {
        1
    } else {
        256 * pow256((n - 1) as nat)
    }
}

/// The unsigned integer whose little-endian encoding is `b`.
pub open spec fn le_value(b: Seq<u8>) -> nat
    decreases b.len(),
{
    if b.len() == 0 {
        0
    } else {
        b[0] as nat + 256 * le_value(b.subrange(1, b.len() as int))
    }
}

/// The little-endian integer held by `width` bytes of `data` from `offset` on.
pub open spec fn field(data: Seq<u8>, offset: int, width: int) -> nat {
    le_value(data.subrange(offset, offset + width))
}

proof fn lemma_pow256_mono(a: nat, b: nat)
    requires
        a <= b,
    ensures
        pow256(a) <= pow256(b),
    decreases b,
{
    if a < b {
        lemma_pow256_mono(a, (b - 1) as nat);
    }
}

pub proof fn lemma_pow256_values()
    ensures
        pow256(2) == 0x1_0000,
        pow256(4) == 0x1_0000_0000,
        pow256(8) == 0x1_0000_0000_0000_0000,
        pow256(16) == 0x1_0000_0000_0000_0000_0000_0000_0000_0000,
{
    reveal_with_fuel(pow256, 17);
}

/// Reads the little-endian integer of `width` bytes at `offset`.
pub fn read_le(data: &Vec<u8>, offset: usize, width: usize) -> (r: u128)
    requires
        width <= 16,
        offset + width <= data@.len(),
    ensures
        r as nat == field(data@, offset as int, width as int),
        (r as nat) < pow256(width as nat),
{
    let n: usize = data.len();
    assert(offset + width <= n);
    let end: usize = offset + width;
    let mut i: usize = end;
    let mut v: u128 = 0;
    proof {
        lemma_pow256_values();
        lemma_pow256_mono(width as nat, 16);
    }
    while i > offset
        invariant
            offset <= i <= end,
            end == offset + width,
            end <= data@.len(),
            pow256(width as nat) <= pow256(16),
            pow256(16) == 0x1_0000_0000_0000_0000_0000_0000_0000_0000,
            v as nat == le_value(data@.subrange(i as int, end as int)),
            (v as nat) < pow256((end - i) as nat),
        decreases i,
    {
        let ghost tail = data@.subrange(i as int, end as int);
        let ghost longer = data@.subrange(i - 1, end as int);
        assert(longer.subrange(1, longer.len() as int) =~= tail);
        let byte = data[i - 1];
        proof {
            lemma_pow256_mono((end - i + 1) as nat, width as nat);
            assert(v * 256 + byte < pow256((end - i + 1) as nat)) by (nonlinear_arith)
                requires
                    v + 1 <= pow256((end - i) as nat),
                    pow256((end - i + 1) as nat) == 256 * pow256((end - i) as nat),
                    byte < 256,
            ;
        }
        v = v * 256 + byte as u128;
        i = i - 1;
    }
    v
}

} // verus!

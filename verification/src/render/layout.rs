use vstd::arithmetic::div_mod::{
    lemma_div_pos_is_pos, lemma_fundamental_div_mod, lemma_mod_bound, lemma_mod_multiples_basic,
};
use vstd::arithmetic::mul::lemma_mul_is_commutative;
use vstd::arithmetic::power2::{lemma_pow2_pos, pow2};
use vstd::bits::{lemma_u64_low_bits_mask_is_mod, lemma_u64_pow2_no_overflow, low_bits_mask};
use vstd::prelude::*;

verus! {

/// The stride of items of `raw_size` bytes under an alignment: the raw
/// size rounded up to a whole number of alignments.
pub open spec fn padded_size(raw_size: nat, alignment: nat) -> nat
    recommends
        alignment > 0,
{
    (((raw_size + alignment - 1) / (alignment as int)) * alignment) as nat
}

/// `size` is a whole number of alignments.
pub open spec fn is_aligned(size: nat, alignment: nat) -> bool {
    size % alignment == 0
}

/// The stride is the least multiple of the alignment that holds an item.
pub proof fn lemma_padded_size_is_least_multiple(raw_size: nat, alignment: nat)
    requires
        alignment > 0,
    ensures
        is_aligned(padded_size(raw_size, alignment), alignment),
        raw_size <= padded_size(raw_size, alignment) < raw_size + alignment,
        forall|m: nat|
            #[trigger] is_aligned(m, alignment) && raw_size <= m ==> padded_size(raw_size, alignment)
                <= m,
{
    let a = alignment as int;
    let top = raw_size + a - 1;
    let q = top / a;
    lemma_fundamental_div_mod(top, a);
    lemma_mod_bound(top, a);
    lemma_div_pos_is_pos(top, a);
    lemma_mul_is_commutative(q, a);
    assert(q * a >= 0) by (nonlinear_arith)
        requires
            q >= 0,
            a > 0,
    ;
    assert(padded_size(raw_size, alignment) == q * a);
    lemma_mod_multiples_basic(q, a);
    assert forall|m: nat| #[trigger] is_aligned(m, alignment) && raw_size <= m implies padded_size(
        raw_size,
        alignment,
    ) <= m by {
        let k = m as int / a;
        lemma_fundamental_div_mod(m as int, a);
        assert(m == a * k);
        assert(a * q <= raw_size + a - 1);
        if k < q {
            assert(a * k + a <= a * q) by (nonlinear_arith)
                requires
                    k + 1 <= q,
                    a > 0,
            ;
        } else {
            assert(q * a <= a * k) by (nonlinear_arith)
                requires
                    q <= k,
                    a > 0,
            ;
        }
    }
}

/// Under an alignment that is a power of two the stride can be had by
/// masking: add the alignment less one to the raw size, and clear the bits
/// below the alignment.
pub proof fn lemma_padded_size_by_mask(raw_size: u64, bits: nat)
    requires
        bits < 64,
        raw_size + pow2(bits) - 1 <= u64::MAX,
    ensures
        padded_size(raw_size as nat, pow2(bits)) == ((raw_size + low_bits_mask(bits)) as u64) & !(
        low_bits_mask(bits) as u64),
{
    lemma_u64_pow2_no_overflow(bits);
    lemma_pow2_pos(bits);
    let alignment: u64 = pow2(bits) as u64;
    let mask: u64 = low_bits_mask(bits) as u64;
    assert(mask == alignment - 1);
    let top: u64 = (raw_size + mask) as u64;
    assert(top & !mask == top - (top & mask)) by (bit_vector);
    lemma_u64_low_bits_mask_is_mod(top, bits);
    lemma_fundamental_div_mod(top as int, alignment as int);
    lemma_mul_is_commutative(top as int / alignment as int, alignment as int);
}

/// How much room one item takes on the device: its size as the layout
/// rules of the device give it, and the alignment that they ask of it.
#[derive(Debug, Clone, Copy, PartialEq, Eq)]
pub struct ItemLayout {
    raw_size: usize,
    alignment: usize,
    item_size: usize,
}

/// What a layout stands for.
pub ghost struct LayoutModel {
    pub raw_size: nat,
    pub alignment: nat,
}

impl View for ItemLayout {
    type V = LayoutModel;

    closed spec fn view(&self) -> LayoutModel {
        LayoutModel { raw_size: self.raw_size as nat, alignment: self.alignment as nat }
    }
}

impl ItemLayout {
    #[verifier::type_invariant]
    closed spec fn inv(&self) -> bool {
        self.alignment > 0 && self.item_size == padded_size(
            self.raw_size as nat,
            self.alignment as nat,
        )
    }

    /// The layout of items of `raw_size` bytes under `alignment`. There is
    /// none where the alignment is zero or the stride does not fit the
    /// machine word.
    pub fn new(raw_size: usize, alignment: usize) -> (layout: Option<ItemLayout>)
        ensures
            layout.is_some() <==> alignment > 0 && padded_size(raw_size as nat, alignment as nat)
                <= usize::MAX,
            layout matches Some(l) ==> l@.raw_size == raw_size && l@.alignment == alignment,
    {
        if alignment == 0 {
            return None;
        }
        proof {
            lemma_padded_size_is_least_multiple(raw_size as nat, alignment as nat);
            lemma_fundamental_div_mod(raw_size as int, alignment as int);
            lemma_mod_bound(raw_size as int, alignment as int);
            lemma_div_pos_is_pos(raw_size as int, alignment as int);
        }
        let whole: usize = raw_size / alignment;
        let rest: usize = raw_size % alignment;
        proof {
            lemma_mul_is_commutative(whole as int, alignment as int);
            assert(whole * alignment <= raw_size) by (nonlinear_arith)
                requires
                    raw_size == alignment * whole + rest,
                    rest >= 0,
            ;
        }
        let floor: usize = whole * alignment;
        if rest == 0 {
            proof {
                lemma_padded_of_parts(raw_size as int, alignment as int, whole as int, rest as int);
            }
            Some(ItemLayout { raw_size, alignment, item_size: floor })
        } else {
            proof {
                lemma_padded_of_parts(raw_size as int, alignment as int, whole as int, rest as int);
            }
            match floor.checked_add(alignment) {
                Some(item_size) => Some(ItemLayout { raw_size, alignment, item_size }),
                None => None,
            }
        }
    }

    /// Size of an item before padding.
    pub fn raw_size(&self) -> (raw_size: usize)
        ensures
            raw_size == self@.raw_size,
    {
        self.raw_size
    }

    /// The alignment of an item.
    pub fn alignment(&self) -> (alignment: usize)
        ensures
            alignment == self@.alignment,
            alignment > 0,
    {
        proof {
            use_type_invariant(self);
        }
        self.alignment
    }

    /// The stride: the distance in bytes from one item to the next.
    pub fn item_size(&self) -> (item_size: usize)
        ensures
            item_size == padded_size(self@.raw_size, self@.alignment),
    {
        proof {
            use_type_invariant(self);
        }
        self.item_size
    }
}

/// The stride of a size given as quotient and remainder by the alignment.
proof fn lemma_padded_of_parts(raw_size: int, alignment: int, whole: int, rest: int)
    requires
        alignment > 0,
        raw_size >= 0,
        raw_size == alignment * whole + rest,
        0 <= rest < alignment,
    ensures
        padded_size(raw_size as nat, alignment as nat) == if rest == 0 {
            whole * alignment
        } else {
            whole * alignment + alignment
        },
{
    let top = raw_size + alignment - 1;
    if rest == 0 {
        assert(top == alignment * whole + (alignment - 1));
        vstd::arithmetic::div_mod::lemma_fundamental_div_mod_converse(
            top,
            alignment,
            whole,
            alignment - 1,
        );
    } else {
        assert(top == alignment * (whole + 1) + (rest - 1)) by (nonlinear_arith)
            requires
                top == raw_size + alignment - 1,
                raw_size == alignment * whole + rest,
        ;
        vstd::arithmetic::div_mod::lemma_fundamental_div_mod_converse(
            top,
            alignment,
            whole + 1,
            rest - 1,
        );
        assert((whole + 1) * alignment == whole * alignment + alignment) by (nonlinear_arith);
    }
    assert(whole * alignment >= 0) by (nonlinear_arith)
        requires
            alignment > 0,
            raw_size == alignment * whole + rest,
            raw_size >= 0,
            0 <= rest < alignment,
    ;
}

} // verus!

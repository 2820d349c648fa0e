use vstd::prelude::*;
use vstd::arithmetic::power2::{pow2, lemma2_to64};
use vstd::bits::lemma_u64_shl_is_mul;
use vstd::arithmetic::div_mod::lemma_fundamental_div_mod_converse;

verus! {

/// The bit whose hovering has been acted on last.
#[derive(Debug, Clone, Copy, PartialEq, Eq, Structural)]
pub struct BitHover(pub usize);

impl BitHover {
    /// Records that the pointer entered bit `idx`.
    pub fn start_hover(&mut self, idx: usize)
        ensures
            final(self).0 == idx,
    {
        self.0 = idx;
    }

    /// Whether bit `idx` is another bit than the one hovered last.
    pub fn hover_has_entered(&self, idx: usize) -> (r: bool)
        ensures
            r == (self.0 != idx),
    {
        self.0 != idx
    }
}

/// The weight of bit `idx`: `2^idx`.
pub fn index_pow(idx: usize) -> (r: u64)
    requires
        idx < 64,
    ensures
        r == pow2(idx as nat),
{
    proof {
        lemma2_to64();
        vstd::arithmetic::power2::lemma_pow2_strictly_increases(idx as nat, 64);
        lemma_u64_shl_is_mul(1u64, idx as u64);
    }
    1u64 << (idx as u64)
}

/// The number that `bits` write, most significant bit first.
pub open spec fn bits_value(bits: Seq<bool>) -> nat
    decreases bits.len(),
{
    if bits.len() == 0 {
        0
    } else {
        2 * bits_value(bits.drop_last()) + if bits.last() {
            1nat
        } else {
            0nat
        }
    }
}

/// The number that `bits` write, most significant bit first; of more than 128
/// bits only the last 128 count.
pub fn bits_as_num(bits: &[bool]) -> (r: u128)
    ensures
        r == bits_value(bits@) % (u128::MAX as nat + 1),
{
    let ghost m: int = u128::MAX as int + 1;
    let mut result: u128 = 0;
    let mut i: usize = 0;
    while i < bits.len()
        invariant
            0 <= i <= bits@.len(),
            m == u128::MAX as int + 1,
            result == bits_value(bits@.take(i as int)) as int % m,
        decreases bits@.len() - i,
    {
        let val: u128 = if bits[i] {
            1
        } else {
            0
        };
        let next: u128 = (result << 1u128) ^ val;
        assert(result < 0x8000_0000_0000_0000_0000_0000_0000_0000 ==> next == 2 * result + val)
            by (bit_vector)
            requires
                val <= 1,
                next == (result << 1u128) ^ val,
        ;
        assert(result >= 0x8000_0000_0000_0000_0000_0000_0000_0000 ==> next
            + 0x8000_0000_0000_0000_0000_0000_0000_0000 + 0x8000_0000_0000_0000_0000_0000_0000_0000
            == 2 * result + val) by (bit_vector)
            requires
                val <= 1,
                next == (result << 1u128) ^ val,
        ;
        proof {
            if result < 0x8000_0000_0000_0000_0000_0000_0000_0000 {
                vstd::arithmetic::div_mod::lemma_small_mod((2 * result + val) as nat, m as nat);
            } else {
                lemma_fundamental_div_mod_converse(2 * result + val, m, 1, next as int);
            }
        }
        proof {
            let prev = bits_value(bits@.take(i as int)) as int;
            assert(bits@.take(i + 1).drop_last() =~= bits@.take(i as int));
            assert(bits_value(bits@.take(i + 1)) == 2 * prev + val);
            vstd::arithmetic::div_mod::lemma_mul_mod_noop_right(2, prev as int, m);
            vstd::arithmetic::div_mod::lemma_add_mod_noop(2 * prev, val as int, m);
            vstd::arithmetic::div_mod::lemma_add_mod_noop(2 * (prev % m), val as int, m);
            vstd::arithmetic::div_mod::lemma_mod_twice(val as int, m);
        }
        result = next;
        i = i + 1;
    }
    assert(bits@.take(bits@.len() as int) =~= bits@);
    result
}

/// Editing operations on a row of bits, the first bit being the leftmost.
pub trait Shiftable: Sized {
    /// The bits, from left to right.
    spec fn bits(&self) -> Seq<bool>;

    /// Drops the leftmost bit (if any) and appends `new_bit` on the right.
    fn shift_left(&mut self, new_bit: bool)
        ensures
            final(self).bits() == if old(self).bits().len() == 0 {
                seq![new_bit]
            } else {
                old(self).bits().drop_first().push(new_bit)
            },
    ;

    /// Drops the rightmost bit (if any) and puts `new_bit` on the left.
    fn shift_right(&mut self, new_bit: bool)
        ensures
            final(self).bits() == if old(self).bits().len() == 0 {
                seq![new_bit]
            } else {
                seq![new_bit] + old(self).bits().drop_last()
            },
    ;

    /// Puts `new_bit` on the left.
    fn push_left(&mut self, new_bit: bool)
        requires
            old(self).bits().len() < usize::MAX,
        ensures
            final(self).bits() == seq![new_bit] + old(self).bits(),
    ;

    /// Puts `new_bit` on the right.
    fn push_right(&mut self, new_bit: bool)
        ensures
            final(self).bits() == old(self).bits().push(new_bit),
    ;

    /// Drops the leftmost bit, if any.
    fn pop_left(&mut self)
        ensures
            final(self).bits() == if old(self).bits().len() == 0 {
                old(self).bits()
            } else {
                old(self).bits().drop_first()
            },
    ;

    /// Drops the rightmost bit, if any.
    fn pop_right(&mut self)
        ensures
            final(self).bits() == if old(self).bits().len() == 0 {
                old(self).bits()
            } else {
                old(self).bits().drop_last()
            },
    ;

    /// Replaces the bits with `size` zeros.
    fn empty_and_set(&mut self, size: usize)
        ensures
            final(self).bits() == Seq::new(size as nat, |i: int| false),
    ;

    /// Replaces the bits with `size` copies of `value`.
    fn empty_and_set_with(&mut self, size: usize, value: bool)
        ensures
            final(self).bits() == Seq::new(size as nat, |i: int| value),
    ;

    /// Flips every bit.
    fn invert(&mut self)
        ensures
            final(self).bits() == Seq::new(old(self).bits().len(), |i: int| !old(self).bits()[i]),
    ;
}

impl Shiftable for Vec<bool> {
    open spec fn bits(&self) -> Seq<bool> {
        self@
    }

    fn shift_left(&mut self, new_bit: bool) {
        if self.len() > 0 {
            self.remove(0);
        }
        self.push(new_bit);
        proof {
            if old(self)@.len() == 0 {
                assert(self@ =~= seq![new_bit]);
            }
        }
    }

    fn shift_right(&mut self, new_bit: bool) {
        self.pop();
        self.insert(0, new_bit);
        proof {
            if old(self)@.len() == 0 {
                assert(self@ =~= seq![new_bit]);
            } else {
                assert(self@ =~= seq![new_bit] + old(self)@.drop_last());
            }
        }
    }

    fn push_left(&mut self, new_bit: bool) {
        self.insert(0, new_bit);
        assert(self@ =~= seq![new_bit] + old(self)@);
    }

    fn push_right(&mut self, new_bit: bool) {
        self.push(new_bit);
    }

    fn pop_left(&mut self) {
        if self.len() > 0 {
            self.remove(0);
            assert(self@ =~= old(self)@.drop_first());
        }
    }

    fn pop_right(&mut self) {
        self.pop();
    }

    fn empty_and_set(&mut self, size: usize) {
        self.empty_and_set_with(size, false);
    }

    fn empty_and_set_with(&mut self, size: usize, value: bool) {
        self.clear();
        let mut i: usize = 0;
        while i < size
            invariant
                i <= size,
                self@ =~= Seq::new(i as nat, |j: int| value),
            decreases size - i,
        {
            self.push(value);
            i = i + 1;
        }
    }

    fn invert(&mut self) {
        let mut i: usize = 0;
        while i < self.len()
            invariant
                i <= self@.len(),
                self@.len() == old(self)@.len(),
                forall|j: int| 0 <= j < i ==> self@[j] == !old(self)@[j],
                forall|j: int| i <= j < self@.len() ==> self@[j] == old(self)@[j],
            decreases self@.len() - i,
        {
            let b = self[i];
            self.set(i, !b);
            i = i + 1;
        }
        assert(self@ =~= Seq::new(old(self)@.len(), |j: int| !old(self)@[j]));
    }
}

/// A single bit seen as a digit that can be flipped.
pub trait Bittable: Sized {
    /// Whether the bit is set.
    spec fn is_set(&self) -> bool;

    /// The digit that shows the bit: `1` or `0`.
    fn bit_display(&self) -> (r: &str)
        ensures
            r@ == if self.is_set() {
                seq!['1']
            } else {
                seq!['0']
            },
    ;

    /// Flips the bit.
    fn flip(&mut self)
        ensures
            final(self).is_set() == !old(self).is_set(),
    ;
}

impl Bittable for bool {
    open spec fn is_set(&self) -> bool {
        *self
    }

    fn bit_display(&self) -> (r: &str) {
        proof {
            reveal_strlit("1");
            reveal_strlit("0");
        }
        if *self {
            "1"
        } else {
            "0"
        }
    }

    fn flip(&mut self) {
        *self = !*self;
    }
}

} // verus!

use vstd::prelude::*;
use vstd::std_specs::bits::{axiom_u32_trailing_zeros, u32_trailing_zeros};
use crate::board::Square;

verus! {

/// The 25 low bits: one for each square.
pub const FULL_MASK: u32 = 0x1FF_FFFF;

/// Whether bit `i` of `bits` is set.
pub open spec fn bit(bits: u32, i: u32) -> bool {
    (bits >> i) & 1 == 1
}

/// Whether bit `i` of `bits` is set, for an index of any size.
pub open spec fn on(bits: u32, i: int) -> bool {
    bit(bits, i as u32)
}

proof fn lemma_bit_ops(a: u32, b: u32, i: u32)
    by (bit_vector)
    requires
        i < 32,
    ensures
        bit(a | b, i) == (bit(a, i) || bit(b, i)),
        bit(a & b, i) == (bit(a, i) && bit(b, i)),
        bit(a ^ b, i) == (bit(a, i) != bit(b, i)),
        bit(!a & 0x1FF_FFFFu32, i) == (i < 25 && !bit(a, i)),
        bit(a & 0x1FF_FFFFu32, i) == (i < 25 && bit(a, i)),
        !bit(0u32, i),
{
}

proof fn lemma_bit_single(a: u32, k: u32, i: u32)
    by (bit_vector)
    requires
        i < 32,
        k < 32,
    ensures
        bit(1u32 << k, i) == (i == k),
        bit(a | (1u32 << k), i) == (bit(a, i) || i == k),
        bit(a & !(1u32 << k), i) == (bit(a, i) && i != k),
        (a & (1u32 << k)) != 0 <==> bit(a, k),
{
}

proof fn lemma_mask_kept(a: u32, b: u32, k: u32)
    by (bit_vector)
    requires
        a <= 0x1FF_FFFFu32,
        b <= 0x1FF_FFFFu32,
        k < 25,
    ensures
        (a | b) <= 0x1FF_FFFFu32,
        (a & b) <= 0x1FF_FFFFu32,
        (a ^ b) <= 0x1FF_FFFFu32,
        (!a & 0x1FF_FFFFu32) <= 0x1FF_FFFFu32,
        (a | (1u32 << k)) <= 0x1FF_FFFFu32,
        (a & !(1u32 << k)) <= 0x1FF_FFFFu32,
        (1u32 << k) <= 0x1FF_FFFFu32,
{
}

proof fn lemma_mask_any(a: u32, i: u32)
    by (bit_vector)
    ensures
        (a & 0x1FF_FFFFu32) <= 0x1FF_FFFFu32,
        i < 25 ==> bit(0x1FF_FFFFu32, i),
{
}

proof fn lemma_high_bits_clear(a: u32, i: u32)
    by (bit_vector)
    requires
        a <= 0x1FF_FFFFu32,
        25 <= i < 32,
    ensures
        !bit(a, i),
{
}

proof fn lemma_lowest_cleared(a: u32, k: u32, i: u32)
    by (bit_vector)
    requires
        a != 0,
        k < 32,
        i < 32,
        bit(a, k),
        a << ((32 - k) as u32) == 0,
    ensures
        bit(a & ((a - 1) as u32), i) == (bit(a, i) && i != k),
        (a & ((a - 1) as u32)) <= a,
{
}

proof fn lemma_differing_bit(a: u32, b: u32, k: u32)
    by (bit_vector)
    requires
        k < 32,
        bit(a ^ b, k),
    ensures
        bit(a, k) != bit(b, k),
{
}

proof fn lemma_xor_zero(a: u32, b: u32)
    by (bit_vector)
    ensures
        a ^ b == 0 <==> a == b,
{
}

/// A set of squares, held as the 25 low bits of a word.
#[derive(Clone, Copy, Debug, PartialEq, Eq, Structural)]
pub struct Bitboard(u32);

impl View for Bitboard {
    type V = Set<int>;

    /// The indices of the squares in the set.
    closed spec fn view(&self) -> Set<int> {
        Set::new(|i: int| 0 <= i < 25 && on(self.0, i))
    }
}

impl Bitboard {
    /// No bit outside the 25 squares is ever set.
    #[verifier::type_invariant]
    pub closed spec fn masked(self) -> bool {
        self.0 <= 0x1FF_FFFFu32
    }

    /// The word that holds the set.
    pub closed spec fn bits(self) -> u32 {
        self.0
    }

    /// Bit `i` of the word says whether square `i` is in the set.
    pub proof fn lemma_view(self)
        ensures
            forall|i: int| #[trigger] self@.contains(i) <==> 0 <= i < 25 && on(self.bits(), i),
            self.masked() <==> self.bits() <= FULL_MASK,
            self@.finite(),
            self@.len() <= 25,
    {
        let full = Set::new(|i: int| 0 <= i < 25);
        vstd::set_lib::lemma_int_range(0, 25);
        assert(full =~= vstd::set_lib::set_int_range(0, 25));
        assert(self@.subset_of(full));
        vstd::set_lib::lemma_len_subset(self@, full);
    }

    /// Masked boards that hold the same squares are equal.
    pub proof fn lemma_view_determines(a: Bitboard, b: Bitboard)
        requires
            a.masked(),
            b.masked(),
            a@ == b@,
        ensures
            a == b,
    {
        let x = a.0 ^ b.0;
        lemma_xor_zero(a.0, b.0);
        if x != 0 {
            axiom_u32_trailing_zeros(x);
            let k = u32_trailing_zeros(x);
            lemma_differing_bit(a.0, b.0, k);
            if k >= 25 {
                lemma_high_bits_clear(a.0, k);
                lemma_high_bits_clear(b.0, k);
            } else {
                assert(on(a.0, k as int) == bit(a.0, k));
                assert(on(b.0, k as int) == bit(b.0, k));
                assert(a@.contains(k as int) == on(a.0, k as int));
                assert(b@.contains(k as int) == on(b.0, k as int));
            }
        }
    }

    /// The empty set of squares.
    pub fn empty() -> (b: Bitboard)
        ensures
            b@ == Set::<int>::empty(),
            b.masked(),
            b.bits() == 0,
    {
        let b = Bitboard(0);
        proof {
            assert forall|i: int| !b@.contains(i) by {
                if 0 <= i < 25 {
                    lemma_bit_ops(0, 0, i as u32);
                }
            }
            assert(b@ =~= Set::<int>::empty());
        }
        b
    }

    /// The set of all 25 squares.
    pub fn full() -> (b: Bitboard)
        ensures
            b@ == Set::new(|i: int| 0 <= i < 25),
            b.masked(),
            b.bits() == FULL_MASK,
    {
        let b = Bitboard(0x1FF_FFFF);
        proof {
            assert forall|i: int| 0 <= i < 25 implies b@.contains(i) by {
                lemma_mask_any(0, i as u32);
                assert(on(0x1FF_FFFFu32, i));
            }
            assert(b@ =~= Set::new(|i: int| 0 <= i < 25));
        }
        b
    }

    /// The set whose word is `bits` without the bits above the 25 squares.
    pub fn from_bits(bits: u32) -> (b: Bitboard)
        ensures
            b.bits() == bits & FULL_MASK,
            b.masked(),
            forall|i: int| #[trigger] b@.contains(i) <==> 0 <= i < 25 && on(bits, i),
    {
        proof {
            lemma_mask_any(bits, 0);
            assert forall|i: int| 0 <= i < 25 implies #[trigger] on(bits & 0x1FF_FFFFu32, i)
                == on(bits, i) by {
                lemma_bit_ops(bits, bits, i as u32);
            }
        }
        Bitboard(bits & 0x1FF_FFFF)
    }

    pub fn to_bits(self) -> (bits: u32)
        ensures
            bits == self.bits(),
            bits <= FULL_MASK,
    {
        proof {
            use_type_invariant(&self);
        }
        self.0
    }

    /// The set that holds one square.
    pub fn from_square(square: Square) -> (b: Bitboard)
        ensures
            b@ == set![square@],
            b.masked(),
    {
        let k = square.index();
        proof {
            lemma_mask_kept(0, 0, k);
            assert forall|i: int| 0 <= i < 25 implies #[trigger] on(1u32 << k, i) == (i == k) by {
                lemma_bit_single(0, k, i as u32);
            }
        }
        let b = Bitboard(1u32 << k);
        assert(b@ =~= set![square@]);
        b
    }

    pub fn contains(self, square: Square) -> (r: bool)
        ensures
            r == self@.contains(square@),
    {
        let k = square.index();
        proof {
            lemma_bit_single(self.0, k, k);
        }
        (self.0 & (1u32 << k)) != 0
    }

    pub fn insert(&mut self, square: Square)
        ensures
            final(self)@ == old(self)@.insert(square@),
            final(self).masked(),
    {
        let k = square.index();
        proof {
            use_type_invariant(&*self);
            lemma_mask_kept(self.0, 0, k);
            assert forall|i: int| 0 <= i < 25 implies #[trigger] on(self.0 | (1u32 << k), i)
                == (on(self.0, i) || i == k) by {
                lemma_bit_single(self.0, k, i as u32);
            }
        }
        self.0 = self.0 | (1u32 << k);
        assert(self@ =~= old(self)@.insert(square@));
    }

    pub fn remove(&mut self, square: Square)
        ensures
            final(self)@ == old(self)@.remove(square@),
            final(self).masked(),
    {
        let k = square.index();
        proof {
            use_type_invariant(&*self);
            lemma_mask_kept(self.0, 0, k);
            assert forall|i: int| 0 <= i < 25 implies #[trigger] on(self.0 & !(1u32 << k), i)
                == (on(self.0, i) && i != k) by {
                lemma_bit_single(self.0, k, i as u32);
            }
        }
        self.0 = self.0 & !(1u32 << k);
        assert(self@ =~= old(self)@.remove(square@));
    }

    pub fn is_empty(self) -> (r: bool)
        ensures
            r == (self@ == Set::<int>::empty()),
            r == (self@.len() == 0),
            r == (self.bits() == 0),
    {
        proof {
            use_type_invariant(&self);
            self.lemma_view();
            if self.0 == 0 {
                assert forall|i: int| !self@.contains(i) by {
                    if 0 <= i < 25 {
                        lemma_bit_ops(0, 0, i as u32);
                    }
                }
                assert(self@ =~= Set::<int>::empty());
            } else {
                axiom_u32_trailing_zeros(self.0);
                let k = u32_trailing_zeros(self.0);
                if k >= 25 {
                    lemma_high_bits_clear(self.0, k);
                }
                assert(self@.contains(k as int));
            }
        }
        self.0 == 0
    }

    /// An iterator over the squares of the set, lowest index first.
    pub fn iter(self) -> (it: BitboardIter)
        ensures
            it.rest() == self,
    {
        BitboardIter(self)
    }

    /// Takes the square with the lowest index out of the set, if there is one.
    pub fn pop(&mut self) -> (r: Option<Square>)
        ensures
            r is None <==> old(self)@ == Set::<int>::empty(),
            r is None ==> *final(self) == *old(self),
            r is Some ==> old(self)@.contains(r->0@) && r->0.on_board()
                && final(self)@ == old(self)@.remove(r->0@)
                && forall|i: int| old(self)@.contains(i) ==> r->0@ <= i,
            final(self).masked(),
            final(self)@.len() <= old(self)@.len(),
            r is Some ==> final(self)@.len() < old(self)@.len(),
    {
        proof {
            use_type_invariant(&*self);
            self.lemma_view();
        }
        if self.is_empty() {
            None
        } else {
            let lsb = self.0.trailing_zeros();
            proof {
                axiom_u32_trailing_zeros(self.0);
                if lsb >= 25 {
                    lemma_high_bits_clear(self.0, lsb);
                }
                assert forall|i: int| 0 <= i < 25 implies #[trigger] on(self.0 & ((self.0 - 1) as u32), i)
                    == (on(self.0, i) && i != lsb) by {
                    lemma_lowest_cleared(self.0, lsb, i as u32);
                }
                lemma_lowest_cleared(self.0, lsb, 0);
            }
            self.0 = self.0 & (self.0 - 1);
            proof {
                assert(self@ =~= old(self)@.remove(lsb as int));
                assert forall|i: int| old(self)@.contains(i) implies lsb <= i by {
                    if i < lsb {
                        assert((old(self).0 >> (i as u32)) & 1u32 == 0u32);
                    }
                }
            }
            Some(Square::from_index(lsb as u8))
        }
    }

    /// The set that `|` gives.
    pub closed spec fn joined(self, rhs: Bitboard) -> Bitboard {
        Bitboard(self.0 | rhs.0)
    }

    /// The set that `&` gives.
    pub closed spec fn common(self, rhs: Bitboard) -> Bitboard {
        Bitboard(self.0 & rhs.0)
    }

    /// The set that `^` gives.
    pub closed spec fn differing(self, rhs: Bitboard) -> Bitboard {
        Bitboard(self.0 ^ rhs.0)
    }

    /// The set that `!` gives.
    pub closed spec fn inverted(self) -> Bitboard {
        Bitboard(!self.0 & 0x1FF_FFFFu32)
    }

    /// What the operators give: `|` the squares in either set, `&` those in
    /// both, `^` those in exactly one, and `!` those of the board that are not
    /// in the set.
    pub proof fn lemma_operators(self, rhs: Bitboard)
        requires
            self.masked(),
            rhs.masked(),
        ensures
            self.joined(rhs)@ == self@.union(rhs@),
            self.common(rhs)@ == self@.intersect(rhs@),
            forall|i: int| #[trigger]
                self.differing(rhs)@.contains(i) <==> (self@.contains(i) != rhs@.contains(i)),
            forall|i: int| #[trigger] self.inverted()@.contains(i) <==> 0 <= i < 25 && !self@.contains(i),
            self.joined(rhs).masked(),
            self.common(rhs).masked(),
            self.differing(rhs).masked(),
            self.inverted().masked(),
    {
        lemma_mask_kept(self.0, rhs.0, 0);
        lemma_mask_any(!self.0, 0);
        assert forall|i: int| 0 <= i < 25 implies #[trigger] on(self.0 | rhs.0, i) == (on(
            self.0,
            i,
        ) || on(rhs.0, i)) by {
            lemma_bit_ops(self.0, rhs.0, i as u32);
        }
        assert forall|i: int| 0 <= i < 25 implies #[trigger] on(self.0 & rhs.0, i) == (on(
            self.0,
            i,
        ) && on(rhs.0, i)) by {
            lemma_bit_ops(self.0, rhs.0, i as u32);
        }
        assert forall|i: int| 0 <= i < 25 implies #[trigger] on(self.0 ^ rhs.0, i) == (on(
            self.0,
            i,
        ) != on(rhs.0, i)) by {
            lemma_bit_ops(self.0, rhs.0, i as u32);
        }
        assert forall|i: int| 0 <= i < 25 implies #[trigger] on(!self.0 & 0x1FF_FFFFu32, i)
            == !on(self.0, i) by {
            lemma_bit_ops(self.0, rhs.0, i as u32);
        }
        assert(self.joined(rhs)@ =~= self@.union(rhs@));
        assert(self.common(rhs)@ =~= self@.intersect(rhs@));
    }

    /// The squares in either set.
    pub fn union(self, rhs: Bitboard) -> (b: Bitboard)
        ensures
            b@ == self@.union(rhs@),
            b.masked(),
            b == self.joined(rhs),
    {
        proof {
            use_type_invariant(&self);
            use_type_invariant(&rhs);
            lemma_mask_kept(self.0, rhs.0, 0);
            assert forall|i: int| 0 <= i < 25 implies #[trigger] on(self.0 | rhs.0, i)
                == (on(self.0, i) || on(rhs.0, i)) by {
                lemma_bit_ops(self.0, rhs.0, i as u32);
            }
        }
        let b = Bitboard(self.0 | rhs.0);
        assert(b@ =~= self@.union(rhs@));
        b
    }

    /// The squares in both sets.
    pub fn intersection(self, rhs: Bitboard) -> (b: Bitboard)
        ensures
            b@ == self@.intersect(rhs@),
            b.masked(),
            b == self.common(rhs),
    {
        proof {
            use_type_invariant(&self);
            use_type_invariant(&rhs);
            lemma_mask_kept(self.0, rhs.0, 0);
            assert forall|i: int| 0 <= i < 25 implies #[trigger] on(self.0 & rhs.0, i)
                == (on(self.0, i) && on(rhs.0, i)) by {
                lemma_bit_ops(self.0, rhs.0, i as u32);
            }
        }
        let b = Bitboard(self.0 & rhs.0);
        assert(b@ =~= self@.intersect(rhs@));
        b
    }

    /// The squares in exactly one of the two sets.
    pub fn symmetric_difference(self, rhs: Bitboard) -> (b: Bitboard)
        ensures
            forall|i: int| #[trigger] b@.contains(i) <==> (self@.contains(i) != rhs@.contains(i)),
            b.masked(),
            b == self.differing(rhs),
    {
        proof {
            use_type_invariant(&self);
            use_type_invariant(&rhs);
            lemma_mask_kept(self.0, rhs.0, 0);
            assert forall|i: int| 0 <= i < 25 implies #[trigger] on(self.0 ^ rhs.0, i)
                == (on(self.0, i) != on(rhs.0, i)) by {
                lemma_bit_ops(self.0, rhs.0, i as u32);
            }
        }
        Bitboard(self.0 ^ rhs.0)
    }

    /// The squares of the board that are not in the set.
    pub fn complement(self) -> (b: Bitboard)
        ensures
            forall|i: int| #[trigger] b@.contains(i) <==> 0 <= i < 25 && !self@.contains(i),
            b.masked(),
            b == self.inverted(),
    {
        proof {
            lemma_mask_any(!self.0, 0);
            assert forall|i: int| 0 <= i < 25 implies #[trigger] on(!self.0 & 0x1FF_FFFFu32, i)
                == !on(self.0, i) by {
                lemma_bit_ops(self.0, self.0, i as u32);
            }
        }
        Bitboard(!self.0 & 0x1FF_FFFF)
    }
}

impl core::ops::BitOr for Bitboard {
    type Output = Bitboard;

    fn bitor(self, rhs: Bitboard) -> (b: Bitboard) {
        self.union(rhs)
    }
}

impl vstd::std_specs::ops::BitOrSpecImpl for Bitboard {
    open spec fn obeys_bitor_spec() -> bool {
        true
    }

    open spec fn bitor_req(self, rhs: Bitboard) -> bool {
        true
    }

    open spec fn bitor_spec(self, rhs: Bitboard) -> Bitboard {
        self.joined(rhs)
    }
}

impl core::ops::BitAnd for Bitboard {
    type Output = Bitboard;

    fn bitand(self, rhs: Bitboard) -> (b: Bitboard) {
        self.intersection(rhs)
    }
}

impl vstd::std_specs::ops::BitAndSpecImpl for Bitboard {
    open spec fn obeys_bitand_spec() -> bool {
        true
    }

    open spec fn bitand_req(self, rhs: Bitboard) -> bool {
        true
    }

    open spec fn bitand_spec(self, rhs: Bitboard) -> Bitboard {
        self.common(rhs)
    }
}

impl core::ops::BitXor for Bitboard {
    type Output = Bitboard;

    fn bitxor(self, rhs: Bitboard) -> (b: Bitboard) {
        self.symmetric_difference(rhs)
    }
}

impl vstd::std_specs::ops::BitXorSpecImpl for Bitboard {
    open spec fn obeys_bitxor_spec() -> bool {
        true
    }

    open spec fn bitxor_req(self, rhs: Bitboard) -> bool {
        true
    }

    open spec fn bitxor_spec(self, rhs: Bitboard) -> Bitboard {
        self.differing(rhs)
    }
}

impl core::ops::Not for Bitboard {
    type Output = Bitboard;

    fn not(self) -> (b: Bitboard) {
        self.complement()
    }
}

impl vstd::std_specs::ops::NotSpecImpl for Bitboard {
    open spec fn obeys_not_spec() -> bool {
        true
    }

    open spec fn not_req(self) -> bool {
        true
    }

    open spec fn not_spec(self) -> Bitboard {
        self.inverted()
    }
}

impl core::ops::BitOrAssign for Bitboard {
    fn bitor_assign(&mut self, rhs: Bitboard)
        ensures
            *final(self) == old(self).joined(rhs),
    {
        *self = self.union(rhs);
    }
}

impl core::ops::BitAndAssign for Bitboard {
    fn bitand_assign(&mut self, rhs: Bitboard)
        ensures
            *final(self) == old(self).common(rhs),
    {
        *self = self.intersection(rhs);
    }
}

impl core::ops::BitXorAssign for Bitboard {
    fn bitxor_assign(&mut self, rhs: Bitboard)
        ensures
            *final(self) == old(self).differing(rhs),
    {
        *self = self.symmetric_difference(rhs);
    }
}

/// Walks the squares of a set from the lowest index up.
pub struct BitboardIter(Bitboard);

impl BitboardIter {
    /// The squares that have not been handed out yet.
    pub closed spec fn rest(self) -> Bitboard {
        self.0
    }

    /// Hands out the remaining square with the lowest index, if there is one.
    pub fn next(&mut self) -> (r: Option<Square>)
        ensures
            r is None <==> old(self).rest()@ == Set::<int>::empty(),
            r is None ==> final(self).rest() == old(self).rest(),
            r is Some ==> old(self).rest()@.contains(r->0@) && r->0.on_board()
                && final(self).rest()@ == old(self).rest()@.remove(r->0@)
                && forall|i: int| old(self).rest()@.contains(i) ==> r->0@ <= i,
    {
        self.0.pop()
    }
}

} // verus!

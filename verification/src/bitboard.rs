//! Sets of board points, kept as one bit per point.
//!
//! The board has three concentric rings of eight points each. A point is named
//! by its ring (0 is the outermost) and its position on the ring (0 is the top
//! left corner, counting clockwise), and is stored under the linear index
//! `ring * 8 + position`. The bits themselves live in a `bitvec` array. The
//! functions `bits_zero` to `bits_greater` make the calls into `bitvec`; their
//! contracts say what the source of `bitvec` shows of each call, and are
//! believed by Verus without proof. Everything else in this module is proved
//! from them.

use vstd::prelude::*;
use vstd::set_lib::*;
use bitvec::array::BitArray;
use bitvec::order::Lsb0;

verus! {

/// Number of rings.
pub const RINGS: usize = 3;

/// Number of points on a ring.
pub const POSITIONS: usize = 8;

/// Number of points on the board.
pub const POINTS: usize = 24;

/// A set of board points.
///
/// The set is kept in a `bitvec::array::BitArray` over three bytes, read from
/// the least significant bit: bit `p` is set if the point with linear index
/// `p` is in the set. Verus does not look into the array; [`ones`] names what
/// it holds.
#[verifier::external_body]
#[derive(Debug, PartialEq, Eq)]
pub struct BitBoard {
    bits: BitArray<[u8; 3], Lsb0>,
}

/// The indices of the bits of `board` that are set. The array has 24 bits;
/// the view of a board keeps the indices below 24, so that nothing has to be
/// believed of the others.
pub uninterp spec fn ones(board: BitBoard) -> Set<int>;

impl Clone for BitBoard {
    fn clone(&self) -> (r: Self)
        ensures
            r == *self,
    {
        *self
    }
}

impl Copy for BitBoard {

}

/// `BitArray::ZERO`: the array with every bit cleared.
#[verifier::external_body]
fn bits_zero() -> (r: BitBoard)
    ensures
        ones(r) == Set::<int>::empty(),
{
    BitBoard { bits: BitArray::ZERO }
}

/// `BitSlice::set`: writes `value` into the bit at `index` and leaves the
/// other bits as they were. It panics for an index past the last bit, which
/// `requires` rules out.
#[verifier::external_body]
fn bits_set(board: &mut BitBoard, index: usize, value: bool)
    requires
        index < POINTS,
    ensures
        ones(*final(board)) == if value {
            ones(*old(board)).insert(index as int)
        } else {
            ones(*old(board)).remove(index as int)
        },
{
    board.bits.set(index, value);
}

/// `BitSlice::iter_ones`: yields the index of every set bit, lowest first.
#[verifier::external_body]
fn bits_ones(board: &BitBoard) -> (r: Vec<usize>)
    ensures
        forall|i: int| 0 <= i < r.len() ==> r[i] < POINTS && ones(*board).contains(#[trigger] r[i] as int),
        forall|i: int, j: int| 0 <= i < j < r.len() ==> r[i] < r[j],
        forall|p: int|
            0 <= p < POINTS && #[trigger] ones(*board).contains(p) ==> r@.contains(p as usize),
{
    board.bits.iter_ones().collect()
}

/// `BitOr` on two arrays: a bit of the result is set where it is set in
/// either operand.
#[verifier::external_body]
fn bits_or(a: &BitBoard, b: &BitBoard) -> (r: BitBoard)
    ensures
        ones(r) == ones(*a).union(ones(*b)),
{
    BitBoard { bits: a.bits | b.bits }
}

/// `BitAnd` on two arrays: a bit of the result is set where it is set in
/// both operands.
#[verifier::external_body]
fn bits_and(a: &BitBoard, b: &BitBoard) -> (r: BitBoard)
    ensures
        ones(r) == ones(*a).intersect(ones(*b)),
{
    BitBoard { bits: a.bits & b.bits }
}

/// `Not` on an array: every one of its bits is inverted.
#[verifier::external_body]
fn bits_not(a: &BitBoard) -> (r: BitBoard)
    ensures
        forall|p: int| 0 <= p < POINTS ==> (#[trigger] ones(r).contains(p) <==> !ones(*a).contains(p)),
{
    BitBoard { bits: !a.bits }
}

/// `PartialEq` on two arrays of one length: true when they agree at every
/// index.
#[verifier::external_body]
fn bits_same(a: &BitBoard, b: &BitBoard) -> (r: bool)
    ensures
        r <==> forall|p: int|
            0 <= p < POINTS ==> (#[trigger] ones(*a).contains(p) <==> ones(*b).contains(p)),
{
    a.bits == b.bits
}

/// `PartialOrd` on two arrays of one length: at the first index where they
/// differ, the array whose bit is set is the greater; arrays that never
/// differ are equal.
#[verifier::external_body]
fn bits_greater(a: &BitBoard, b: &BitBoard) -> (r: bool)
    ensures
        r <==> exists|p: int|
            0 <= p < POINTS && #[trigger] ones(*a).contains(p) && !ones(*b).contains(p) && forall|q: int|
                0 <= q < p ==> (#[trigger] ones(*a).contains(q) <==> ones(*b).contains(q)),
{
    a.bits > b.bits
}

/// The linear index of the point at `position` on `ring`. Coordinates out of
/// range wrap around.
pub open spec fn point_index(ring: int, position: int) -> int {
    (ring % 3) * 8 + position % 8
}

/// Whether `p` is the linear index of a point.
pub open spec fn is_point(p: int) -> bool {
    0 <= p < 24
}

/// The set of all points.
pub open spec fn all_points() -> Set<int> {
    Set::new(|p: int| is_point(p))
}

/// `a` comes after `b` in the order of point sets: at the lowest point that
/// only one of them holds, it is `a` that holds it.
pub open spec fn outranks(a: Set<int>, b: Set<int>) -> bool {
    exists|p: int|
        is_point(p) && #[trigger] a.contains(p) && !b.contains(p) && forall|q: int|
            0 <= q < p ==> (#[trigger] a.contains(q) <==> b.contains(q))
}

/// The linear index of a coordinate pair that is in range.
pub open spec fn pair_index(pair: (usize, usize)) -> int {
    pair.0 * 8 + pair.1
}

/// `list` names every point of `points` once, by ring and position, in
/// ascending order of linear index.
pub open spec fn lists_points(list: Seq<(usize, usize)>, points: Set<int>) -> bool {
    &&& forall|i: int|
        0 <= i < list.len() ==> {
            &&& (#[trigger] list[i]).0 < 3
            &&& list[i].1 < 8
            &&& points.contains(pair_index(list[i]))
        }
    &&& forall|i: int, j: int|
        0 <= i < j < list.len() ==> pair_index(#[trigger] list[i]) < pair_index(#[trigger] list[j])
    &&& forall|p: int| #[trigger]
        points.contains(p) ==> exists|i: int| 0 <= i < list.len() && pair_index(#[trigger] list[i]) == p
}

impl View for BitBoard {
    type V = Set<int>;

    /// The points of the set, as linear indices.
    open spec fn view(&self) -> Set<int> {
        Set::new(|p: int| is_point(p) && ones(*self).contains(p))
    }
}

/// A set of points addressed by ring and position.
pub trait BitArr2D: Sized {
    /// The points of the set, as linear indices.
    spec fn points(&self) -> Set<int>;

    /// The set without points.
    fn empty() -> (r: Self)
        ensures
            r.points() == Set::<int>::empty(),
    ;

    /// Puts the point at (`x`, `y`) into the set, or takes it out.
    fn set_point(&mut self, x: usize, y: usize, value: bool)
        ensures
            final(self).points() == if value {
                old(self).points().insert(point_index(x as int, y as int))
            } else {
                old(self).points().remove(point_index(x as int, y as int))
            },
    ;

    /// The set that holds the point at (`x`, `y`) and nothing else.
    fn from_point(x: usize, y: usize) -> (r: Self)
        ensures
            r.points() == set![point_index(x as int, y as int)],
    ;

    /// The points of the set as (ring, position) pairs, by ascending linear
    /// index.
    fn iter_set_points(&self) -> (r: Vec<(usize, usize)>)
        ensures
            lists_points(r@, self.points()),
    ;
}

impl BitArr2D for BitBoard {
    open spec fn points(&self) -> Set<int> {
        self@
    }

    fn empty() -> (r: Self) {
        let r = bits_zero();
        assert(r@ =~= Set::<int>::empty());
        r
    }

    fn set_point(&mut self, x: usize, y: usize, value: bool) {
        let idx = (x % RINGS) * POSITIONS + (y % POSITIONS);
        bits_set(self, idx, value);
        assert(final(self)@ =~= if value {
            old(self)@.insert(idx as int)
        } else {
            old(self)@.remove(idx as int)
        });
    }

    fn from_point(x: usize, y: usize) -> (r: Self) {
        let mut square: BitBoard = BitBoard::empty();
        square.set_point(x, y, true);
        assert(square@ =~= set![point_index(x as int, y as int)]);
        square
    }

    fn iter_set_points(&self) -> (r: Vec<(usize, usize)>) {
        let indices = bits_ones(self);
        let mut pairs: Vec<(usize, usize)> = Vec::new();
        let mut k: usize = 0;
        while k < indices.len()
            invariant
                k <= indices.len(),
                pairs.len() == k,
                forall|i: int| 0 <= i < indices.len() ==> indices[i] < POINTS,
                forall|i: int|
                    0 <= i < k ==> {
                        &&& (#[trigger] pairs[i]).0 < 3
                        &&& pairs[i].1 < 8
                        &&& pair_index(pairs[i]) == indices[i]
                    },
            decreases indices.len() - k,
        {
            let idx = indices[k];
            pairs.push((idx / POSITIONS, idx % POSITIONS));
            k += 1;
        }
        proof {
            assert forall|p: int| #[trigger] self@.contains(p) implies exists|i: int|
                0 <= i < pairs.len() && pair_index(#[trigger] pairs[i]) == p by {
                assert(ones(*self).contains(p));
                let i = choose|i: int| 0 <= i < indices.len() && indices[i] == p as usize;
                assert(pair_index(pairs[i]) == p);
            }
            assert forall|i: int, j: int| 0 <= i < j < pairs.len() implies pair_index(
                #[trigger] pairs[i],
            ) < pair_index(#[trigger] pairs[j]) by {
                assert(indices[i] < indices[j]);
            }
            assert forall|i: int| 0 <= i < pairs.len() implies self@.contains(
                pair_index(#[trigger] pairs[i]),
            ) by {
                assert(ones(*self).contains(indices[i] as int));
            }
        }
        pairs
    }
}

impl BitBoard {
    /// The points that are in `self`, in `other`, or in both.
    pub fn union(&self, other: &BitBoard) -> (r: BitBoard)
        ensures
            r@ == self@.union(other@),
    {
        let r = bits_or(self, other);
        assert(r@ =~= self@.union(other@));
        r
    }

    /// The points that are in both `self` and `other`.
    pub fn intersect(&self, other: &BitBoard) -> (r: BitBoard)
        ensures
            r@ == self@.intersect(other@),
    {
        let r = bits_and(self, other);
        assert(r@ =~= self@.intersect(other@));
        r
    }

    /// The points of the board that are not in `self`.
    pub fn complement(&self) -> (r: BitBoard)
        ensures
            r@ == all_points().difference(self@),
    {
        let r = bits_not(self);
        assert(r@ =~= all_points().difference(self@));
        r
    }

    /// The points of `self` that are not in `other`.
    pub fn subtract(&self, other: &BitBoard) -> (r: BitBoard)
        ensures
            r@ == self@.difference(other@),
    {
        let rest = other.complement();
        let r = self.intersect(&rest);
        assert(r@ =~= self@.difference(other@));
        r
    }

    /// Whether the point at (`x`, `y`) is in the set.
    pub fn has_point(&self, x: usize, y: usize) -> (r: bool)
        ensures
            r <==> self@.contains(point_index(x as int, y as int)),
    {
        let point = BitBoard::from_point(x, y);
        let r = self.intersect(&point).equals(&point);
        proof {
            let p = point_index(x as int, y as int);
            assert(point@.contains(p));
            if self@.contains(p) {
                assert(self@.intersect(point@) =~= point@);
            }
        }
        r
    }

    /// The number of points in the set.
    pub fn count(&self) -> (n: usize)
        ensures
            n == self@.len(),
            n <= 24,
    {
        let list = self.iter_set_points();
        proof {
            lemma_list_length(list@, self@);
            lemma_view_is_point_set(*self);
        }
        list.len()
    }

    /// Whether `self` and `other` have no point in common.
    pub fn is_disjoint(&self, other: &BitBoard) -> (r: bool)
        ensures
            r <==> self@.disjoint(other@),
    {
        let common = self.intersect(other);
        let r = common.equals(&BitBoard::empty());
        proof {
            if self@.disjoint(other@) {
                assert(common@ =~= Set::<int>::empty());
            }
            if r {
                assert forall|p: int| self@.contains(p) implies !other@.contains(p) by {
                    assert(!common@.contains(p));
                }
            }
        }
        r
    }

    /// Whether `self` and `other` hold the same points.
    pub fn equals(&self, other: &BitBoard) -> (r: bool)
        ensures
            r <==> self@ == other@,
    {
        let r = bits_same(self, other);
        proof {
            if r {
                assert(self@ =~= other@);
            }
            if self@ == other@ {
                assert forall|p: int| 0 <= p < POINTS implies (#[trigger] ones(*self).contains(p)
                    <==> ones(*other).contains(p)) by {
                    assert(self@.contains(p) <==> other@.contains(p));
                }
            }
        }
        r
    }

    /// Whether `self` comes after `other` in the order of point sets.
    pub fn exceeds(&self, other: &BitBoard) -> (r: bool)
        ensures
            r <==> outranks(self@, other@),
    {
        let r = bits_greater(self, other);
        proof {
            if r {
                let p = choose|p: int|
                    0 <= p < POINTS && #[trigger] ones(*self).contains(p) && !ones(*other).contains(
                        p,
                    ) && forall|q: int|
                        0 <= q < p ==> (#[trigger] ones(*self).contains(q) <==> ones(
                            *other,
                        ).contains(q));
                assert(self@.contains(p) && !other@.contains(p));
                assert forall|q: int| 0 <= q < p implies (#[trigger] self@.contains(q)
                    <==> other@.contains(q)) by {
                    assert(ones(*self).contains(q) <==> ones(*other).contains(q));
                }
            }
            if outranks(self@, other@) {
                let p = choose|p: int|
                    is_point(p) && #[trigger] self@.contains(p) && !other@.contains(p)
                        && forall|q: int|
                        0 <= q < p ==> (#[trigger] self@.contains(q) <==> other@.contains(q));
                assert(ones(*self).contains(p) && !ones(*other).contains(p));
                assert forall|q: int| 0 <= q < p implies (#[trigger] ones(*self).contains(q)
                    <==> ones(*other).contains(q)) by {
                    assert(self@.contains(q) <==> other@.contains(q));
                }
            }
        }
        r
    }
}

/// A point set is finite and has at most 24 points.
pub proof fn lemma_point_set_is_small(points: Set<int>)
    requires
        points.subset_of(all_points()),
    ensures
        points.finite(),
        points.len() <= 24,
{
    lemma_int_range(0, 24);
    assert(all_points() =~= set_int_range(0, 24));
    lemma_len_subset(points, all_points());
}

/// The points of a board form a point set.
pub proof fn lemma_view_is_point_set(board: BitBoard)
    ensures
        board@.subset_of(all_points()),
        board@.finite(),
        board@.len() <= 24,
{
    lemma_point_set_is_small(board@);
}

/// A list that names the points of a set has as many entries as the set has
/// points.
pub proof fn lemma_list_length(list: Seq<(usize, usize)>, points: Set<int>)
    requires
        lists_points(list, points),
    ensures
        points.finite(),
        points.len() == list.len(),
    decreases list.len(),
{
    broadcast use vstd::set::group_set_axioms;

    if list.len() == 0 {
        assert(points =~= Set::<int>::empty());
    } else {
        let last = list.len() - 1;
        let rest = list.drop_last();
        let fewer = points.remove(pair_index(list[last]));
        assert forall|p: int| #[trigger] fewer.contains(p) implies exists|i: int|
            0 <= i < rest.len() && pair_index(#[trigger] rest[i]) == p by {
            let i = choose|i: int| 0 <= i < list.len() && pair_index(#[trigger] list[i]) == p;
            assert(rest[i] == list[i]);
        }
        assert forall|i: int| 0 <= i < rest.len() implies fewer.contains(
            pair_index(#[trigger] rest[i]),
        ) by {
            assert(rest[i] == list[i]);
            assert(pair_index(list[i]) < pair_index(list[last]));
        }
        assert forall|i: int, j: int| 0 <= i < j < rest.len() implies pair_index(
            #[trigger] rest[i],
        ) < pair_index(#[trigger] rest[j]) by {
            assert(rest[i] == list[i] && rest[j] == list[j]);
        }
        assert forall|i: int| 0 <= i < rest.len() implies (#[trigger] rest[i]).0 < 3 && rest[i].1
            < 8 by {
            assert(rest[i] == list[i]);
        }
        lemma_list_length(rest, fewer);
        assert(points =~= fewer.insert(pair_index(list[last])));
    }
}

/// Below `bound`, two point sets of which one contains the other either hold
/// the same points or differ first at a point that only the larger one holds.
proof fn lemma_first_extra_point(larger: Set<int>, smaller: Set<int>, bound: int) -> (p: int)
    requires
        0 <= bound <= 24,
        smaller.subset_of(larger),
        exists|e: int| 0 <= e < bound && larger.contains(e) && !smaller.contains(e),
    ensures
        0 <= p < bound,
        larger.contains(p),
        !smaller.contains(p),
        forall|q: int| 0 <= q < p ==> (#[trigger] larger.contains(q) <==> smaller.contains(q)),
    decreases bound,
{
    if exists|e: int| 0 <= e < bound - 1 && larger.contains(e) && !smaller.contains(e) {
        lemma_first_extra_point(larger, smaller, bound - 1)
    } else {
        let p = bound - 1;
        assert forall|q: int| 0 <= q < p implies (#[trigger] larger.contains(q)
            <==> smaller.contains(q)) by {
            if larger.contains(q) && !smaller.contains(q) {
                assert(0 <= q < bound - 1 && larger.contains(q) && !smaller.contains(q));
            }
        }
        p
    }
}

/// The order of point sets is monotonic under inclusion: a set comes after
/// each of its proper subsets, and after no set that contains it.
pub proof fn lemma_order_follows_inclusion(larger: Set<int>, smaller: Set<int>)
    requires
        larger.subset_of(all_points()),
        smaller.subset_of(larger),
    ensures
        outranks(larger, smaller) <==> larger != smaller,
        !outranks(smaller, larger),
{
    if larger != smaller {
        assert(!(larger =~= smaller));
        let e = choose|e: int| larger.contains(e) != smaller.contains(e);
        assert(all_points().contains(e));
        let p = lemma_first_extra_point(larger, smaller, 24);
        assert(is_point(p) && larger.contains(p) && !smaller.contains(p));
    }
}

} // verus!

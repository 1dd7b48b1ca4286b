//! The geometry of the board: which points are connected, and which lines of
//! three points form a mill.

use vstd::prelude::*;
use crate::bitboard::{all_points, is_point, point_index, BitArr2D, BitBoard, POSITIONS, RINGS};
use crate::bitboard::{lemma_order_follows_inclusion, lemma_view_is_point_set};

verus! {

/// The ring of the point with linear index `p`.
pub open spec fn ring_of(p: int) -> int {
    p / 8
}

/// The position on its ring of the point with linear index `p`.
pub open spec fn position_of(p: int) -> int {
    p % 8
}

/// Whether a line of the board joins `p` and `q`. Neighbours on a ring are
/// joined, the ring being a closed cycle of eight points; the midpoint of an
/// edge (an odd position) is also joined to the same position on the next
/// ring inwards and outwards.
pub open spec fn adjacent(p: int, q: int) -> bool {
    &&& is_point(p)
    &&& is_point(q)
    &&& {
        ||| ring_of(p) == ring_of(q) && (position_of(q) == (position_of(p) + 1) % 8 || position_of(p)
            == (position_of(q) + 1) % 8)
        ||| position_of(p) == position_of(q) && position_of(p) % 2 == 1 && (ring_of(q) == ring_of(p)
            + 1 || ring_of(p) == ring_of(q) + 1)
    }
}

/// The points joined to `p`.
pub open spec fn adjacency(p: int) -> Set<int> {
    Set::new(|q: int| adjacent(p, q))
}

/// The mill along a ring: the corner at `corner` and the two points that
/// follow it clockwise.
pub open spec fn ring_mill(ring: int, corner: int) -> Set<int> {
    set![point_index(ring, corner), point_index(ring, corner + 1), point_index(ring, corner + 2)]
}

/// The mill across the rings: the edge midpoints at `position` on all three
/// rings.
pub open spec fn radial_mill(position: int) -> Set<int> {
    set![point_index(0, position), point_index(1, position), point_index(2, position)]
}

/// Number of mill lines.
pub open spec fn mill_count() -> int {
    16
}

/// Whether the `k`-th mill line is a radial mill.
pub open spec fn line_is_radial(k: int) -> bool {
    k < 8 && k % 2 == 1
}

/// The ring of the `k`-th mill line, where it is a ring mill.
pub open spec fn line_ring(k: int) -> int {
    if k < 8 {
        0
    } else {
        1 + (k - 8) / 4
    }
}

/// The corner where the `k`-th mill line starts, where it is a ring mill.
pub open spec fn line_corner(k: int) -> int {
    if k < 8 {
        k
    } else {
        2 * ((k - 8) % 4)
    }
}

/// The `k`-th mill line. The first eight lines are those that start on the
/// outer ring, by their position: ring mills from the corners and radial
/// mills from the midpoints. The four ring mills of the middle ring and the
/// four of the inner ring follow.
pub open spec fn mill_line(k: int) -> Set<int> {
    if line_is_radial(k) {
        radial_mill(k)
    } else {
        ring_mill(line_ring(k), line_corner(k))
    }
}

/// Whether `line` is one of the mill lines.
pub open spec fn is_mill_line(line: Set<int>) -> bool {
    exists|k: int| 0 <= k < mill_count() && line == #[trigger] mill_line(k)
}

/// Whether the `k`-th mill line is a standing mill of `pieces` that holds `p`.
pub open spec fn mill_covers(pieces: Set<int>, k: int, p: int) -> bool {
    0 <= k < mill_count() && mill_line(k).subset_of(pieces) && mill_line(k).contains(p)
}

/// The points of `pieces` that stand in a mill: the union of the mill lines
/// that `pieces` holds in full.
pub open spec fn mill_cover(pieces: Set<int>) -> Set<int> {
    Set::new(|p: int| exists|k: int| mill_covers(pieces, k, p))
}

/// Whether a piece put on `p` next to `pieces` closes a mill: the cover of
/// the pieces grows.
pub open spec fn completes_mill(pieces: Set<int>, p: int) -> bool {
    mill_cover(pieces.insert(p)) != mill_cover(pieces)
}

/// Adjacency is symmetric, joins only points of the board, and joins no point
/// to itself.
pub proof fn lemma_adjacency(p: int, q: int)
    ensures
        adjacent(p, q) == adjacent(q, p),
        adjacent(p, q) ==> is_point(p) && is_point(q) && p != q,
{
}

/// The three points of the `k`-th mill line, from its start.
pub open spec fn line_points(k: int) -> (int, int, int) {
    if line_is_radial(k) {
        (k, 8 + k, 16 + k)
    } else {
        let start = line_ring(k) * 8 + line_corner(k);
        (start, start + 1, line_ring(k) * 8 + (line_corner(k) + 2) % 8)
    }
}

/// The `k`-th mill line holds its three points and nothing else.
pub proof fn lemma_line_points(k: int)
    requires
        0 <= k < mill_count(),
    ensures
        mill_line(k) == set![line_points(k).0, line_points(k).1, line_points(k).2],
        0 <= line_ring(k) < 3,
        0 <= line_corner(k) < 8,
        !line_is_radial(k) ==> line_corner(k) % 2 == 0,
{
    let (a, b, c) = line_points(k);
    if line_is_radial(k) {
        assert(point_index(0, k) == a && point_index(1, k) == b && point_index(2, k) == c);
    } else {
        let ring = line_ring(k);
        let corner = line_corner(k);
        assert(0 <= ring < 3 && 0 <= corner < 8);
        assert(point_index(ring, corner) == a);
        assert(point_index(ring, corner + 1) == b);
        assert(point_index(ring, corner + 2) == c);
        assert(mill_line(k) == ring_mill(ring, corner));
    }
    assert(mill_line(k) =~= set![a, b, c]);
}

/// Every mill line holds exactly three points of the board.
pub proof fn lemma_mill_line_has_three_points(k: int)
    requires
        0 <= k < mill_count(),
    ensures
        mill_line(k).subset_of(all_points()),
        mill_line(k).finite(),
        mill_line(k).len() == 3,
{
    lemma_line_points(k);
    let (a, b, c) = line_points(k);
    lemma_three_distinct(a, b, c);
}

/// A set written with three different elements has three elements.
proof fn lemma_three_distinct(a: int, b: int, c: int)
    requires
        a != b,
        a != c,
        b != c,
    ensures
        set![a, b, c].finite(),
        set![a, b, c].len() == 3,
{
    broadcast use vstd::set::group_set_axioms;

    assert(set![a, b, c] =~= Set::<int>::empty().insert(a).insert(b).insert(c));
    assert(Set::<int>::empty().insert(a).len() == 1);
    assert(Set::<int>::empty().insert(a).insert(b).len() == 2);
}

/// No mill line occurs twice among the sixteen.
pub proof fn lemma_mill_lines_differ(j: int, k: int)
    requires
        0 <= j < mill_count(),
        0 <= k < mill_count(),
        j != k,
    ensures
        mill_line(j) != mill_line(k),
{
    lemma_line_points(j);
    lemma_line_points(k);
    let (a, b, c) = line_points(j);
    let (d, e, f) = line_points(k);
    // a line is known by its start: the start of a radial mill is the
    // midpoint of an outer edge, the start of a ring mill is a corner
    assert(a != d) by {
        if !line_is_radial(j) && !line_is_radial(k) {
            assert(line_ring(j) != line_ring(k) || line_corner(j) != line_corner(k));
        }
    }
    if mill_line(j) == mill_line(k) {
        assert(set![d, e, f].contains(a));
        assert(set![a, b, c].contains(d));
    }
}

/// Whether `line` is the ring mill that starts at one of the four corners of
/// one of the three rings.
pub open spec fn is_ring_mill(line: Set<int>) -> bool {
    exists|ring: int, corner: int|
        0 <= ring < 3 && 0 <= corner < 8 && corner % 2 == 0 && line == #[trigger] ring_mill(
            ring,
            corner,
        )
}

/// Whether `line` is the radial mill through one of the four edge midpoints.
pub open spec fn is_radial_mill(line: Set<int>) -> bool {
    exists|position: int|
        0 <= position < 8 && position % 2 == 1 && line == #[trigger] radial_mill(position)
}

/// The mill lines are the twelve ring mills and the four radial mills.
pub proof fn lemma_mill_lines_are_ring_and_radial_mills(line: Set<int>)
    ensures
        is_mill_line(line) <==> is_ring_mill(line) || is_radial_mill(line),
{
    if is_mill_line(line) {
        let k = choose|k: int| 0 <= k < mill_count() && line == #[trigger] mill_line(k);
        if line_is_radial(k) {
            assert(line == radial_mill(k));
        } else {
            assert(line == ring_mill(line_ring(k), line_corner(k)));
        }
    }
    if is_ring_mill(line) {
        let (ring, corner) = choose|ring: int, corner: int|
            0 <= ring < 3 && 0 <= corner < 8 && corner % 2 == 0 && line == #[trigger] ring_mill(
                ring,
                corner,
            );
        let k = if ring == 0 {
            corner
        } else {
            8 + (ring - 1) * 4 + corner / 2
        };
        assert(line == mill_line(k));
    }
    if is_radial_mill(line) {
        let position = choose|position: int|
            0 <= position < 8 && position % 2 == 1 && line == #[trigger] radial_mill(position);
        assert(line == mill_line(position));
    }
}

/// The mill cover of a set lies within the set, and grows with it.
pub proof fn lemma_mill_cover_is_monotonic(smaller: Set<int>, larger: Set<int>)
    requires
        smaller.subset_of(larger),
    ensures
        mill_cover(smaller).subset_of(smaller),
        mill_cover(smaller).subset_of(mill_cover(larger)),
{
    assert forall|p: int| mill_cover(smaller).contains(p) implies smaller.contains(p)
        && mill_cover(larger).contains(p) by {
        let k = choose|k: int| mill_covers(smaller, k, p);
        assert(mill_covers(larger, k, p));
    }
}

/// The neighbours of the point at `position` on `ring`, one by one.
pub open spec fn neighbours(ring: int, position: int) -> Set<int> {
    let along = set![ring * 8 + (position + 7) % 8, ring * 8 + (position + 1) % 8];
    let outwards = if position % 2 == 1 && ring > 0 {
        set![(ring - 1) * 8 + position]
    } else {
        Set::empty()
    };
    let inwards = if position % 2 == 1 && ring < 2 {
        set![(ring + 1) * 8 + position]
    } else {
        Set::empty()
    };
    along.union(outwards).union(inwards)
}

/// The points joined to a point are its two neighbours on the ring and, for
/// the midpoint of an edge, the same position on the rings next to it: two
/// points for a corner, three for a midpoint of the outer or of the inner
/// ring, four for a midpoint of the middle ring.
pub proof fn lemma_neighbours(ring: int, position: int)
    requires
        0 <= ring < 3,
        0 <= position < 8,
    ensures
        adjacency(ring * 8 + position) == neighbours(ring, position),
{
    let p = ring * 8 + position;
    assert(ring_of(p) == ring && position_of(p) == position);
    assert forall|q: int| adjacency(p).contains(q) <==> neighbours(ring, position).contains(q) by {
        if is_point(q) {
            let r = ring_of(q);
            let c = position_of(q);
            assert(q == r * 8 + c && 0 <= r < 3 && 0 <= c < 8);
            if r == ring {
                assert(adjacent(p, q) <==> (c == (position + 1) % 8 || position == (c + 1) % 8));
                assert(position == (c + 1) % 8 <==> c == (position + 7) % 8);
            } else {
                assert(adjacent(p, q) <==> (c == position && position % 2 == 1 && (r == ring + 1
                    || ring == r + 1)));
            }
        }
    }
    assert(adjacency(p) =~= neighbours(ring, position));
}

/// The points joined to the point at (`x`, `y`).
pub fn adjacent_squares(x: usize, y: usize) -> (r: BitBoard)
    ensures
        r@ == adjacency(point_index(x as int, y as int)),
{
    let x = x % RINGS;
    let y = y % POSITIONS;
    let mut adj_mask: BitBoard = BitBoard::empty();
    adj_mask.set_point(x, y.wrapping_sub(1), true);
    assert(point_index(x as int, y.wrapping_sub(1) as int) == x * 8 + (y + 7) % 8);
    adj_mask.set_point(x, y + 1, true);
    assert(point_index(x as int, y + 1) == x * 8 + (y + 1) % 8);
    if y % 2 == 1 {
        // the midpoint of an edge
        if x > 0 {
            adj_mask.set_point(x.wrapping_sub(1), y, true);
            assert(point_index(x.wrapping_sub(1) as int, y as int) == (x - 1) * 8 + y);
        }
        if x < RINGS.wrapping_sub(1) {
            adj_mask.set_point(x + 1, y, true);
            assert(point_index(x + 1, y as int) == (x + 1) * 8 + y);
        }
    }
    proof {
        assert(adj_mask@ =~= neighbours(x as int, y as int));
        lemma_neighbours(x as int, y as int);
    }
    adj_mask
}

/// The sixteen mill lines.
pub fn mill_masks() -> (masks: Vec<BitBoard>)
    ensures
        masks.len() == mill_count(),
        forall|k: int| 0 <= k < mill_count() ==> (#[trigger] masks[k])@ == mill_line(k),
{
    let mut mill_masks: Vec<BitBoard> = Vec::new();
    let mut x: usize = 0;
    while x < RINGS
        invariant
            x <= RINGS,
            mill_masks.len() == (if x == 0 {
                0int
            } else {
                4 + 4 * x
            }),
            forall|k: int| 0 <= k < mill_masks.len() ==> (#[trigger] mill_masks[k])@ == mill_line(k),
        decreases RINGS - x,
    {
        let mut y: usize = 0;
        while y < POSITIONS
            invariant
                x < RINGS,
                y <= POSITIONS,
                mill_masks.len() == (if x == 0 {
                    y as int
                } else {
                    4 * x + 4 + (y + 1) / 2
                }),
                forall|k: int|
                    0 <= k < mill_masks.len() ==> (#[trigger] mill_masks[k])@ == mill_line(k),
            decreases POSITIONS - y,
        {
            if y % 2 == 0 {
                // a corner: the mill along the ring that starts here
                let mut mill_mask: BitBoard = BitBoard::empty();
                mill_mask.set_point(x, y, true);
                mill_mask.set_point(x, y + 1, true);
                mill_mask.set_point(x, y + 2, true);
                assert(mill_mask@ =~= ring_mill(x as int, y as int));
                mill_masks.push(mill_mask);
            } else if x == 0 {
                // the midpoint of an outer edge: the mill across the rings
                let mut mill_mask: BitBoard = BitBoard::empty();
                mill_mask.set_point(x, y, true);
                mill_mask.set_point(x + 1, y, true);
                mill_mask.set_point(x + 2, y, true);
                assert(mill_mask@ =~= radial_mill(y as int));
                mill_masks.push(mill_mask);
            }
            y += 1;
        }
        x += 1;
    }
    mill_masks
}

/// The points of `piece_squares` that stand in a mill.
pub fn mill_squares(piece_squares: BitBoard) -> (result: BitBoard)
    ensures
        result@ == mill_cover(piece_squares@),
{
    let masks = mill_masks();
    let mut result: BitBoard = BitBoard::empty();
    let mut k: usize = 0;
    while k < masks.len()
        invariant
            k <= masks.len(),
            masks.len() == mill_count(),
            forall|j: int| 0 <= j < mill_count() ==> (#[trigger] masks[j])@ == mill_line(j),
            result@ == Set::new(
                |p: int| exists|j: int| j < k && #[trigger] mill_covers(piece_squares@, j, p),
            ),
        decreases masks.len() - k,
    {
        let mill_mask = masks[k];
        let ghost before = result@;
        if mill_mask.intersect(&piece_squares).equals(&mill_mask) {
            result = result.union(&mill_mask);
        }
        proof {
            let pieces = piece_squares@;
            let line = mill_line(k as int);
            assert(line.intersect(pieces) == line <==> line.subset_of(pieces)) by {
                if line.subset_of(pieces) {
                    assert(line.intersect(pieces) =~= line);
                }
            }
            let after = Set::new(
                |p: int| exists|j: int| j < k + 1 && #[trigger] mill_covers(pieces, j, p),
            );
            assert forall|p: int| result@.contains(p) implies after.contains(p) by {
                if before.contains(p) {
                    let j = choose|j: int| j < k && #[trigger] mill_covers(pieces, j, p);
                    assert(j < k + 1 && mill_covers(pieces, j, p));
                } else {
                    assert(mill_covers(pieces, k as int, p));
                }
            }
            assert forall|p: int| after.contains(p) implies result@.contains(p) by {
                let j = choose|j: int| j < k + 1 && #[trigger] mill_covers(pieces, j, p);
                if j < k {
                    assert(before.contains(p));
                }
            }
            assert(result@ =~= after);
        }
        k += 1;
    }
    assert(result@ =~= mill_cover(piece_squares@));
    result
}

/// Whether the pieces of `square` put next to `piece_squares` close a mill.
pub fn creates_mill(piece_squares: BitBoard, square: BitBoard) -> (r: bool)
    ensures
        r <==> mill_cover(piece_squares@.union(square@)) != mill_cover(piece_squares@),
{
    let with_square = mill_squares(piece_squares.union(&square));
    let without = mill_squares(piece_squares);
    proof {
        lemma_mill_cover_is_monotonic(piece_squares@, piece_squares@.union(square@));
        lemma_view_is_point_set(with_square);
        lemma_order_follows_inclusion(with_square@, without@);
    }
    with_square.exceeds(&without)
}

} // verus!

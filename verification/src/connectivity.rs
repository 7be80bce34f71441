//! Reachability across floor tiles: the notion of a walkable path between
//! two grid points, and the lemmas that let straight carved runs be chained
//! into connectivity of the whole room list.
use vstd::prelude::*;
use crate::map::{GridMap, Point, TileType, map_idx_spec, SCREEN_WIDTH, SCREEN_HEIGHT};

verus! {

/// Four-way (orthogonal) adjacency of two grid points.
pub open spec fn adj4(a: Point, b: Point) -> bool {
    ||| (a.x == b.x && (b.y == a.y + 1 || b.y + 1 == a.y))
    ||| (a.y == b.y && (b.x == a.x + 1 || b.x + 1 == a.x))
}

/// The point at integer coordinates (x, y).
pub open spec fn pt(x: int, y: int) -> Point {
    Point { x: x as i32, y: y as i32 }
}

/// `p` lies on the grid and holds a floor tile.
pub open spec fn floor_at(tiles: Seq<TileType>, p: Point) -> bool {
    GridMap::in_bounds_spec(p) && tiles[map_idx_spec(p.x as int, p.y as int)] == TileType::Floor
}

/// `path` is a walk over floor tiles from `a` to `b`: nonempty, starts at
/// `a`, ends at `b`, every point is floor, and consecutive points are
/// orthogonally adjacent.
pub open spec fn is_floor_path(tiles: Seq<TileType>, path: Seq<Point>, a: Point, b: Point) -> bool {
    &&& path.len() >= 1
    &&& path[0] == a
    &&& path[path.len() - 1] == b
    &&& (forall|i: int| 0 <= i < path.len() ==> floor_at(tiles, #[trigger] path[i]))
    &&& (forall|i: int| 0 <= i < path.len() - 1 ==> adj4(#[trigger] path[i], path[i + 1]))
}

/// `b` can be reached from `a` by walking floor tiles only.
pub open spec fn reachable(tiles: Seq<TileType>, a: Point, b: Point) -> bool {
    exists|path: Seq<Point>| is_floor_path(tiles, path, a, b)
}

/// A floor tile is reachable from itself.
pub proof fn lemma_reachable_refl(tiles: Seq<TileType>, a: Point)
    requires
        floor_at(tiles, a),
    ensures
        reachable(tiles, a, a),
{
    let path = seq![a];
    assert(is_floor_path(tiles, path, a, a));
}

/// Reachability is symmetric: a floor walk can be retraced backwards.
pub proof fn lemma_reachable_sym(tiles: Seq<TileType>, a: Point, b: Point)
    requires
        reachable(tiles, a, b),
    ensures
        reachable(tiles, b, a),
{
    let path = choose|path: Seq<Point>| is_floor_path(tiles, path, a, b);
    let n = path.len() as int;
    let rev = Seq::new(path.len(), |i: int| path[n - 1 - i]);
    assert forall|i: int| 0 <= i < rev.len() implies floor_at(tiles, #[trigger] rev[i]) by {
        assert(rev[i] == path[n - 1 - i]);
    }
    assert forall|i: int| 0 <= i < rev.len() - 1 implies adj4(#[trigger] rev[i], rev[i + 1]) by {
        assert(adj4(path[n - 2 - i], path[n - 1 - i]));
    }
    assert(is_floor_path(tiles, rev, b, a));
}

/// Reachability is transitive: two floor walks sharing an endpoint join into
/// one.
pub proof fn lemma_reachable_trans(tiles: Seq<TileType>, a: Point, b: Point, c: Point)
    requires
        reachable(tiles, a, b),
        reachable(tiles, b, c),
    ensures
        reachable(tiles, a, c),
{
    let p1 = choose|p: Seq<Point>| is_floor_path(tiles, p, a, b);
    let p2 = choose|p: Seq<Point>| is_floor_path(tiles, p, b, c);
    let n1 = p1.len() as int;
    let n2 = p2.len() as int;
    let joined = p1 + p2.subrange(1, n2);
    assert(joined.len() == n1 + n2 - 1);
    assert forall|i: int| 0 <= i < joined.len() implies floor_at(tiles, #[trigger] joined[i]) by {
        if i < n1 {
            assert(joined[i] == p1[i]);
        } else {
            assert(joined[i] == p2[i - n1 + 1]);
        }
    }
    assert forall|i: int| 0 <= i < joined.len() - 1 implies adj4(#[trigger] joined[i], joined[i + 1]) by {
        if i + 1 < n1 {
            assert(joined[i] == p1[i]);
            assert(joined[i + 1] == p1[i + 1]);
        } else if i + 1 == n1 {
            assert(joined[i] == p1[n1 - 1]);
            assert(joined[i + 1] == p2[1]);
            assert(adj4(p2[0], p2[1]));
        } else {
            assert(joined[i] == p2[i - n1 + 1]);
            assert(joined[i + 1] == p2[i - n1 + 2]);
            assert(adj4(p2[i - n1 + 1], p2[i - n1 + 2]));
        }
    }
    if n2 == 1 {
        assert(joined[joined.len() - 1] == p1[n1 - 1]);
    } else {
        assert(joined[joined.len() - 1] == p2[n2 - 1]);
    }
    assert(is_floor_path(tiles, joined, a, c));
}

/// Turning more wall into floor never breaks reachability.
pub proof fn lemma_reachable_mono(t1: Seq<TileType>, t2: Seq<TileType>, a: Point, b: Point)
    requires
        reachable(t1, a, b),
        forall|p: Point| floor_at(t1, p) ==> #[trigger] floor_at(t2, p),
    ensures
        reachable(t2, a, b),
{
    let path = choose|p: Seq<Point>| is_floor_path(t1, p, a, b);
    assert forall|i: int| 0 <= i < path.len() implies floor_at(t2, #[trigger] path[i]) by {
        assert(floor_at(t1, path[i]));
    }
    assert(is_floor_path(t2, path, a, b));
}

/// A fully carved horizontal span joins its two ends.
pub proof fn lemma_horizontal_run_reachable(tiles: Seq<TileType>, x1: int, x2: int, y: int)
    requires
        0 <= x1 < SCREEN_WIDTH,
        0 <= x2 < SCREEN_WIDTH,
        0 <= y < SCREEN_HEIGHT,
        forall|xx: int|
            (if x1 <= x2 {
                x1 <= xx <= x2
            } else {
                x2 <= xx <= x1
            }) ==> floor_at(tiles, #[trigger] pt(xx, y)),
    ensures
        reachable(tiles, pt(x1, y), pt(x2, y)),
{
    let lo = if x1 <= x2 { x1 } else { x2 };
    let hi = if x1 <= x2 { x2 } else { x1 };
    let path = Seq::new((hi - lo + 1) as nat, |i: int| pt(lo + i, y));
    assert forall|i: int| 0 <= i < path.len() implies floor_at(tiles, #[trigger] path[i]) by {
        assert(path[i] == pt(lo + i, y));
        assert(lo <= lo + i <= hi);
    }
    assert forall|i: int| 0 <= i < path.len() - 1 implies adj4(#[trigger] path[i], path[i + 1]) by {
        assert(path[i] == pt(lo + i, y));
        assert(path[i + 1] == pt(lo + i + 1, y));
        assert(path[i].x == lo + i);
        assert(path[i + 1].x == lo + i + 1);
    }
    assert(is_floor_path(tiles, path, pt(lo, y), pt(hi, y)));
    if x1 <= x2 {
        assert(reachable(tiles, pt(x1, y), pt(x2, y)));
    } else {
        lemma_reachable_sym(tiles, pt(lo, y), pt(hi, y));
    }
}

/// A fully carved vertical span joins its two ends.
pub proof fn lemma_vertical_run_reachable(tiles: Seq<TileType>, y1: int, y2: int, x: int)
    requires
        0 <= y1 < SCREEN_HEIGHT,
        0 <= y2 < SCREEN_HEIGHT,
        0 <= x < SCREEN_WIDTH,
        forall|yy: int|
            (if y1 <= y2 {
                y1 <= yy <= y2
            } else {
                y2 <= yy <= y1
            }) ==> floor_at(tiles, #[trigger] pt(x, yy)),
    ensures
        reachable(tiles, pt(x, y1), pt(x, y2)),
{
    let lo = if y1 <= y2 { y1 } else { y2 };
    let hi = if y1 <= y2 { y2 } else { y1 };
    let path = Seq::new((hi - lo + 1) as nat, |i: int| pt(x, lo + i));
    assert forall|i: int| 0 <= i < path.len() implies floor_at(tiles, #[trigger] path[i]) by {
        assert(path[i] == pt(x, lo + i));
        assert(lo <= lo + i <= hi);
    }
    assert forall|i: int| 0 <= i < path.len() - 1 implies adj4(#[trigger] path[i], path[i + 1]) by {
        assert(path[i] == pt(x, lo + i));
        assert(path[i + 1] == pt(x, lo + i + 1));
        assert(path[i].y == lo + i);
        assert(path[i + 1].y == lo + i + 1);
    }
    assert(is_floor_path(tiles, path, pt(x, lo), pt(x, hi)));
    if y1 <= y2 {
        assert(reachable(tiles, pt(x, y1), pt(x, y2)));
    } else {
        lemma_reachable_sym(tiles, pt(x, lo), pt(x, hi));
    }
}

proof fn lemma_chain_fwd(tiles: Seq<TileType>, centers: Seq<Point>, a: int, b: int)
    requires
        forall|j: int| 1 <= j < centers.len() ==> reachable(tiles, centers[j - 1], #[trigger] centers[j]),
        forall|j: int| 0 <= j < centers.len() ==> floor_at(tiles, #[trigger] centers[j]),
        0 <= a <= b < centers.len(),
    ensures
        reachable(tiles, centers[a], centers[b]),
    decreases b - a,
{
    if a == b {
        lemma_reachable_refl(tiles, centers[a]);
    } else {
        lemma_chain_fwd(tiles, centers, a, b - 1);
        assert(reachable(tiles, centers[b - 1], centers[b]));
        lemma_reachable_trans(tiles, centers[a], centers[b - 1], centers[b]);
    }
}

/// A chain of pairwise-joined floor points is mutually reachable: every
/// point of the chain reaches every other.
pub proof fn lemma_chain_all_pairs(tiles: Seq<TileType>, centers: Seq<Point>)
    requires
        forall|j: int| 1 <= j < centers.len() ==> reachable(tiles, centers[j - 1], #[trigger] centers[j]),
        forall|j: int| 0 <= j < centers.len() ==> floor_at(tiles, #[trigger] centers[j]),
    ensures
        forall|a: int, b: int|
            0 <= a < centers.len() && 0 <= b < centers.len() ==> reachable(
                tiles,
                #[trigger] centers[a],
                #[trigger] centers[b],
            ),
{
    assert forall|a: int, b: int|
        0 <= a < centers.len() && 0 <= b < centers.len() implies reachable(
        tiles,
        #[trigger] centers[a],
        #[trigger] centers[b],
    ) by {
        if a <= b {
            lemma_chain_fwd(tiles, centers, a, b);
        } else {
            lemma_chain_fwd(tiles, centers, b, a);
            lemma_reachable_sym(tiles, centers[b], centers[a]);
        }
    }
}

} // verus!

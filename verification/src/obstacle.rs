use vstd::prelude::*;

verus! {

/// Distance along an edge between two neighbouring obstacles.
pub const OBSTACLE_SPACING: i32 = 50;

/// One of the four edges of the obstacle border.
#[derive(Clone, Copy, Debug, PartialEq, Eq, Structural)]
pub enum Edge {
    Top,
    Bottom,
    Left,
    Right,
}

/// A point obstacle on the border: the edge it lies on and its whole-number
/// coordinate along that edge (x on `Top` and `Bottom`, y on `Left` and
/// `Right`). The coordinate across the edge is the edge's own and is not
/// stored here.
#[derive(Clone, Copy, Debug, PartialEq, Eq, Structural)]
pub struct Obstacle {
    pub edge: Edge,
    pub offset: i32,
}

impl Obstacle {
    pub fn new(edge: Edge, offset: i32) -> (o: Self)
        ensures
            o == (Obstacle { edge, offset }),
    {
        Obstacle { edge, offset }
    }
}

/// How many grid positions `from, from + 50, from + 100, ..` lie strictly
/// below `to`.
pub open spec fn edge_steps(from: int, to: int) -> nat {
    if to <= from {
        0
    } else {
        ((to - from + OBSTACLE_SPACING - 1) / (OBSTACLE_SPACING as int)) as nat
    }
}

/// The obstacle at index `k` of the walk along a pair of opposite edges:
/// even indices lie on `first`, odd ones on `second`, and each pair shares
/// one grid position.
pub open spec fn edge_walk_at(from: int, first: Edge, second: Edge, k: int) -> Obstacle {
    Obstacle {
        edge: if k % 2 == 0 { first } else { second },
        offset: (from + OBSTACLE_SPACING * (k / 2)) as i32,
    }
}

/// The walk along a pair of opposite edges from `from` up to, and not
/// including, `to`.
pub open spec fn edge_walk(from: int, to: int, first: Edge, second: Edge) -> Seq<Obstacle> {
    Seq::new(2 * edge_steps(from, to), |k: int| edge_walk_at(from, first, second, k))
}

/// The whole border: top and bottom pairs from `left` towards `right`, then
/// left and right pairs from `bottom` towards `top`.
pub open spec fn border(left: int, right: int, bottom: int, top: int) -> Seq<Obstacle> {
    edge_walk(left, right, Edge::Top, Edge::Bottom) + edge_walk(bottom, top, Edge::Left, Edge::Right)
}

/// Appends to `obstacles` the walk along one pair of opposite edges.
pub fn push_edge_walk(obstacles: &mut Vec<Obstacle>, from: i32, to: i32, first: Edge, second: Edge)
    ensures
        final(obstacles)@ == old(obstacles)@ + edge_walk(from as int, to as int, first, second),
{
    let ghost before = obstacles@;
    let end: i64 = to as i64;
    let mut at: i64 = from as i64;
    let mut pairs: usize = 0;
    while at < end
        invariant
            end == to,
            at == from + OBSTACLE_SPACING * pairs,
            pairs > 0 ==> at - OBSTACLE_SPACING < end,
            obstacles@.len() == before.len() + 2 * pairs,
            forall|k: int| 0 <= k < before.len() ==> obstacles@[k] == before[k],
            forall|k: int|
                0 <= k < 2 * pairs ==> #[trigger] obstacles@[before.len() + k] == edge_walk_at(
                    from as int,
                    first,
                    second,
                    k,
                ),
        decreases end + OBSTACLE_SPACING - at,
    {
        let ghost grown = obstacles@;
        let offset: i32 = at as i32;
        obstacles.push(Obstacle::new(first, offset));
        obstacles.push(Obstacle::new(second, offset));
        proof {
            let p = pairs as int;
            assert((2 * p) % 2 == 0 && (2 * p) / 2 == p);
            assert((2 * p + 1) % 2 == 1 && (2 * p + 1) / 2 == p);
            assert forall|k: int| 0 <= k < 2 * p + 2 implies #[trigger] obstacles@[before.len() + k]
                == edge_walk_at(from as int, first, second, k) by {
                if k < 2 * p {
                    assert(obstacles@[before.len() + k] == grown[before.len() + k]);
                }
            }
        }
        at = at + OBSTACLE_SPACING as i64;
        pairs = pairs + 1;
    }
    proof {
        let walk = edge_walk(from as int, to as int, first, second);
        assert(pairs == edge_steps(from as int, to as int));
        assert forall|k: int| 0 <= k < walk.len() implies obstacles@[before.len() + k] == walk[k] by {}
        assert(obstacles@ =~= before + walk);
    }
}

/// The walk along a pair of edges starts at `from`, places one pair every
/// 50 units, stays strictly below `to`, and stops only where the next pair
/// would reach `to`: what is left over at the far end is dropped.
pub proof fn lemma_edge_walk_placement(from: i32, to: i32, first: Edge, second: Edge)
    ensures
        forall|k: int|
            0 <= k < edge_walk(from as int, to as int, first, second).len() ==> {
                let at = #[trigger] edge_walk(from as int, to as int, first, second)[k];
                &&& at.offset == from + OBSTACLE_SPACING * (k / 2)
                &&& from <= at.offset < to
                &&& at.edge == if k % 2 == 0 {
                    first
                } else {
                    second
                }
            },
        from < to ==> from + OBSTACLE_SPACING * edge_steps(from as int, to as int) >= to,
        to <= from ==> edge_steps(from as int, to as int) == 0,
        from < to ==> from + OBSTACLE_SPACING * (edge_steps(from as int, to as int) - 1) < to,
{
    let walk = edge_walk(from as int, to as int, first, second);
    assert forall|k: int| 0 <= k < walk.len() implies {
        let at = #[trigger] walk[k];
        &&& at.offset == from + OBSTACLE_SPACING * (k / 2)
        &&& from <= at.offset < to
    } by {
        assert(k / 2 < edge_steps(from as int, to as int));
    }
}

/// The border holds two obstacles for every grid position of the walk from
/// `left` to `right`, followed by two for every grid position of the walk
/// from `bottom` to `top`.
pub proof fn lemma_border_len(left: i32, right: i32, bottom: i32, top: i32)
    ensures
        border(left as int, right as int, bottom as int, top as int).len() == 2 * edge_steps(
            left as int,
            right as int,
        ) + 2 * edge_steps(bottom as int, top as int),
{
}

} // verus!

use vstd::prelude::*;
use vstd::arithmetic::div_mod::{
    lemma_fundamental_div_mod, lemma_fundamental_div_mod_converse, lemma_mod_pos_bound,
};
use crate::error::ConfigError;
use crate::velocity::{lemma_unit_velocity, VelocitySet};

verus! {

/// Source coordinate of a population that moves by `e` along an axis of length `n`,
/// with periodic wrap.
pub open spec fn wrap(i: int, e: int, n: int) -> int {
    (i - e) % n
}

/// Rectangular lattice of `x * y * z` nodes (a two-dimensional grid has `z == 1`).
/// Node `(ix, iy, iz)` has index `ix + x * (iy + y * iz)`; the population of node `n`
/// in direction `d` sits at slot `d * node_count + n`.
#[derive(Debug, Clone, Copy, PartialEq, Eq, Structural)]
pub struct StructuredGrid {
    pub x: usize,
    pub y: usize,
    pub z: usize,
}

impl StructuredGrid {
    pub open spec fn node_count(&self) -> int {
        self.x * self.y * self.z
    }

    pub open spec fn wf(&self) -> bool {
        &&& self.x > 0
        &&& self.y > 0
        &&& self.z > 0
        &&& self.node_count() <= usize::MAX
    }

    pub open spec fn in_grid(&self, ix: int, iy: int, iz: int) -> bool {
        0 <= ix < self.x && 0 <= iy < self.y && 0 <= iz < self.z
    }

    pub open spec fn node_at(&self, ix: int, iy: int, iz: int) -> int {
        ix + self.x * (iy + self.y * iz)
    }

    pub open spec fn coord_x(&self, node: int) -> int {
        node % (self.x as int)
    }

    pub open spec fn coord_y(&self, node: int) -> int {
        (node / (self.x as int)) % (self.y as int)
    }

    pub open spec fn coord_z(&self, node: int) -> int {
        (node / (self.x as int)) / (self.y as int)
    }

    pub open spec fn slot(&self, node: int, d: int) -> int {
        d * self.node_count() + node
    }

    /// Node from which a population streams into `node` along direction `d`.
    pub open spec fn source_node(&self, vs: &VelocitySet, node: int, d: int) -> int {
        self.node_at(
            wrap(self.coord_x(node), vs.ex@[d] as int, self.x as int),
            wrap(self.coord_y(node), vs.ey@[d] as int, self.y as int),
            wrap(self.coord_z(node), vs.ez@[d] as int, self.z as int),
        )
    }

    /// Node into which the population of `node` in direction `d` streams.
    pub open spec fn target_node(&self, vs: &VelocitySet, node: int, d: int) -> int {
        self.node_at(
            wrap(self.coord_x(node), -(vs.ex@[d] as int), self.x as int),
            wrap(self.coord_y(node), -(vs.ey@[d] as int), self.y as int),
            wrap(self.coord_z(node), -(vs.ez@[d] as int), self.z as int),
        )
    }

    /// Slot read when streaming into slot `s`.
    pub open spec fn neighbor_slot(&self, vs: &VelocitySet, s: int) -> int {
        let n = self.node_count();
        self.slot(self.source_node(vs, s % n, s / n), s / n)
    }

    /// Slot written when streaming out of slot `s`.
    pub open spec fn target_slot(&self, vs: &VelocitySet, s: int) -> int {
        let n = self.node_count();
        self.slot(self.target_node(vs, s % n, s / n), s / n)
    }

    /// A grid of the given extents; every extent must be positive and the node count
    /// must fit in `usize`.
    pub fn new(x: usize, y: usize, z: usize) -> (r: Result<StructuredGrid, ConfigError>)
        ensures
            (x == 0 || y == 0 || z == 0) ==> r == Err::<StructuredGrid, ConfigError>(
                ConfigError::ZeroExtent,
            ),
            (x > 0 && y > 0 && z > 0 && x * y * z > usize::MAX) ==> r == Err::<
                StructuredGrid,
                ConfigError,
            >(ConfigError::GridTooLarge),
            (x > 0 && y > 0 && z > 0 && x * y * z <= usize::MAX) ==> r == Ok::<
                StructuredGrid,
                ConfigError,
            >(StructuredGrid { x, y, z }),
            r is Ok ==> r->Ok_0.wf(),
    {
        if x == 0 || y == 0 || z == 0 {
            return Err(ConfigError::ZeroExtent);
        }
        let xy = x.checked_mul(y);
        match xy {
            None => {
                proof {
                    assert(x * y * z >= x * y) by (nonlinear_arith)
                        requires
                            z >= 1,
                            x * y >= 0,
                    ;
                }
                Err(ConfigError::GridTooLarge)
            },
            Some(xy) => match xy.checked_mul(z) {
                None => Err(ConfigError::GridTooLarge),
                Some(_) => Ok(StructuredGrid { x, y, z }),
            },
        }
    }

    /// Number of nodes.
    pub fn size(&self) -> (r: usize)
        requires
            self.wf(),
        ensures
            r == self.node_count(),
    {
        proof {
            assert(self.x * self.y <= self.x * self.y * self.z) by (nonlinear_arith)
                requires
                    self.z >= 1,
                    self.x * self.y >= 0,
            ;
        }
        self.x * self.y * self.z
    }

    /// Slot of the population of `node` in direction `d`.
    pub fn flatten(&self, node: usize, d: usize, q: usize) -> (r: usize)
        requires
            self.wf(),
            node < self.node_count(),
            d < q,
            q * self.node_count() <= usize::MAX,
        ensures
            r == self.slot(node as int, d as int),
            r < q * self.node_count(),
    {
        proof {
            lemma_slot(*self, q as int, node as int, d as int);
        }
        d * self.size() + node
    }

    /// Node and direction of a slot: the inverse of `flatten`.
    pub fn unflatten(&self, s: usize, q: usize) -> (r: (usize, usize))
        requires
            self.wf(),
            s < q * self.node_count(),
        ensures
            r.0 < self.node_count(),
            r.1 < q,
            self.slot(r.0 as int, r.1 as int) == s,
    {
        proof {
            lemma_unslot(*self, q as int, s as int);
        }
        let n = self.size();
        (s % n, s / n)
    }

    /// Every slot of a population array with `q` directions, in order.
    pub fn main_index(&self, q: usize) -> (r: Vec<usize>)
        requires
            self.wf(),
            q * self.node_count() <= usize::MAX,
        ensures
            r@.len() == q * self.node_count(),
            forall|s: int| 0 <= s < r@.len() ==> r@[s] as int == s,
    {
        proof {
            assert(q * self.x * self.y * self.z == q * (self.x * self.y * self.z)) by (nonlinear_arith);
        }
        let total = q * self.size();
        let mut r: Vec<usize> = Vec::new();
        let mut s: usize = 0;
        while s < total
            invariant
                s <= total,
                total == q * self.node_count(),
                r@.len() == s,
                forall|k: int| 0 <= k < s ==> r@[k] as int == k,
            decreases total - s,
        {
            r.push(s);
            s = s + 1;
        }
        r
    }

    /// For every slot, the slot it is fetched from when streaming with periodic wrap:
    /// the batched remapping that one streaming step applies.
    pub fn neighbors_index(&self, vs: &VelocitySet) -> (r: Vec<usize>)
        requires
            self.wf(),
            vs.wf(),
            vs.q() * self.node_count() <= usize::MAX,
        ensures
            r@.len() == vs.q() * self.node_count(),
            forall|s: int| 0 <= s < r@.len() ==> r@[s] as int == self.neighbor_slot(vs, s),
    {
        let n = self.size();
        let q = vs.size();
        let total = q * n;
        let mut r: Vec<usize> = Vec::new();
        let mut s: usize = 0;
        while s < total
            invariant
                self.wf(),
                vs.wf(),
                n == self.node_count(),
                q == vs.q(),
                total == q * n,
                s <= total,
                r@.len() == s,
                forall|k: int| 0 <= k < s ==> r@[k] as int == self.neighbor_slot(vs, k),
            decreases total - s,
        {
            proof {
                lemma_unslot(*self, q as int, s as int);
            }
            let d = s / n;
            let node = s % n;
            proof {
                lemma_coords(*self, node as int);
                lemma_unit_velocity(vs, d as int);
            }
            let ix = node % self.x;
            let iy = (node / self.x) % self.y;
            let iz = node / self.x / self.y;
            let sx = wrap_coord(ix, vs.ex[d], self.x);
            let sy = wrap_coord(iy, vs.ey[d], self.y);
            let sz = wrap_coord(iz, vs.ez[d], self.z);
            proof {
                lemma_node_at(*self, sx as int, sy as int, sz as int);
                assert(sy + self.y * sz < self.y * self.z && self.x * (sy + self.y * sz)
                    <= self.x * self.y * self.z && self.y * self.z <= self.x * self.y * self.z
                    && self.y * sz <= self.y * self.z) by (nonlinear_arith)
                    requires
                        sy < self.y,
                        sz < self.z,
                        self.x > 0,
                ;
                lemma_slot(*self, q as int, sx + self.x * (sy + self.y * sz), d as int);
            }
            let src = sx + self.x * (sy + self.y * sz);
            r.push(d * n + src);
            s = s + 1;
        }
        r
    }
}

fn wrap_coord(i: usize, e: i64, n: usize) -> (r: usize)
    requires
        i < n,
        -1 <= e <= 1,
    ensures
        r == wrap(i as int, e as int, n as int),
{
    proof {
        lemma_wrap(i as int, e as int, n as int);
    }
    if e == 1 {
        if i == 0 {
            n - 1
        } else {
            i - 1
        }
    } else if e == -1 {
        if i + 1 == n {
            0
        } else {
            i + 1
        }
    } else {
        i
    }
}

/// Coordinates within the grid give a node index within range, and the coordinate
/// functions recover them.
pub proof fn lemma_node_at(g: StructuredGrid, ix: int, iy: int, iz: int)
    requires
        g.wf(),
        g.in_grid(ix, iy, iz),
    ensures
        0 <= g.node_at(ix, iy, iz) < g.node_count(),
        g.coord_x(g.node_at(ix, iy, iz)) == ix,
        g.coord_y(g.node_at(ix, iy, iz)) == iy,
        g.coord_z(g.node_at(ix, iy, iz)) == iz,
{
    let (x, y, z) = (g.x as int, g.y as int, g.z as int);
    let q = iy + y * iz;
    assert(q >= 0) by (nonlinear_arith)
        requires
            iy >= 0 && y >= 0 && iz >= 0,
            q == iy + y * iz,
    ;
    lemma_fundamental_div_mod_converse(g.node_at(ix, iy, iz), x, q, ix);
    assert(q == iz * y + iy) by (nonlinear_arith)
        requires
            q == iy + y * iz,
    ;
    lemma_fundamental_div_mod_converse(q, y, iz, iy);
    assert(0 <= ix + x * (iy + y * iz) < x * y * z) by (nonlinear_arith)
        requires
            0 <= ix < x && 0 <= iy < y && 0 <= iz < z,
    ;
}

/// Every node index in range has coordinates within the grid that give it back.
pub proof fn lemma_coords(g: StructuredGrid, node: int)
    requires
        g.wf(),
        0 <= node < g.node_count(),
    ensures
        g.in_grid(g.coord_x(node), g.coord_y(node), g.coord_z(node)),
        g.node_at(g.coord_x(node), g.coord_y(node), g.coord_z(node)) == node,
{
    let (x, y, z) = (g.x as int, g.y as int, g.z as int);
    lemma_fundamental_div_mod(node, x);
    lemma_mod_pos_bound(node, x);
    let q1 = node / x;
    let r1 = node % x;
    assert(q1 >= 0) by (nonlinear_arith)
        requires
            node == x * q1 + r1,
            0 <= r1 < x,
            node >= 0,
    ;
    lemma_fundamental_div_mod(q1, y);
    lemma_mod_pos_bound(q1, y);
    let q2 = q1 / y;
    let r2 = q1 % y;
    assert(0 <= q2 < z) by (nonlinear_arith)
        requires
            q1 == y * q2 + r2,
            0 <= r2 < y,
            q1 >= 0,
            node == x * q1 + r1,
            0 <= r1 < x,
            node < x * y * z,
    ;
}

/// A slot of a node in range and a direction in range decomposes back into them.
pub proof fn lemma_slot(g: StructuredGrid, q: int, node: int, d: int)
    requires
        g.wf(),
        0 <= node < g.node_count(),
        0 <= d < q,
    ensures
        0 <= g.slot(node, d) < q * g.node_count(),
        g.slot(node, d) / g.node_count() == d,
        g.slot(node, d) % g.node_count() == node,
{
    let n = g.node_count();
    lemma_fundamental_div_mod_converse(g.slot(node, d), n, d, node);
    assert(0 <= d * n + node < q * n) by (nonlinear_arith)
        requires
            0 <= node < n,
            0 <= d < q,
    ;
}

/// Every slot in range is the slot of a node in range and a direction in range.
pub proof fn lemma_unslot(g: StructuredGrid, q: int, s: int)
    requires
        g.wf(),
        0 <= s < q * g.node_count(),
    ensures
        0 <= s % g.node_count() < g.node_count(),
        0 <= s / g.node_count() < q,
        g.slot(s % g.node_count(), s / g.node_count()) == s,
{
    let n = g.node_count();
    assert(n > 0) by (nonlinear_arith)
        requires
            g.x > 0 && g.y > 0 && g.z > 0,
            n == g.x * g.y * g.z,
    ;
    lemma_fundamental_div_mod(s, n);
    lemma_mod_pos_bound(s, n);
    let d = s / n;
    assert(0 <= d < q) by (nonlinear_arith)
        requires
            s == n * d + s % n,
            0 <= s % n < n,
            0 <= s < q * n,
    ;
}

/// Periodic wrap of a step of at most one stays in range and is undone by the
/// opposite step.
pub proof fn lemma_wrap(i: int, e: int, n: int)
    requires
        0 <= i < n,
        -1 <= e <= 1,
    ensures
        0 <= wrap(i, e, n) < n,
        wrap(wrap(i, e, n), -e, n) == i,
        wrap(i, e, n) == (if i - e < 0 {
            n - 1
        } else if i - e >= n {
            0
        } else {
            i - e
        }),
{
    let j = i - e;
    if j < 0 {
        lemma_fundamental_div_mod_converse(j, n, -1, n - 1);
        lemma_fundamental_div_mod_converse(n - 1 + e, n, 1, 0);
    } else if j >= n {
        lemma_fundamental_div_mod_converse(j, n, 1, 0);
        lemma_fundamental_div_mod_converse(0 + e, n, -1, n - 1);
    } else {
        lemma_fundamental_div_mod_converse(j, n, 0, j);
        lemma_fundamental_div_mod_converse(j + e, n, 0, i);
    }
}

/// Streaming with periodic wrap is a bijection of the slots: the slot that a
/// population is fetched from, and the slot that it moves to, are both in range and
/// undo each other, so every slot is read exactly once.
pub proof fn lemma_streaming_bijection(g: StructuredGrid, vs: &VelocitySet, s: int)
    requires
        g.wf(),
        vs.wf(),
        0 <= s < vs.q() * g.node_count(),
    ensures
        0 <= g.neighbor_slot(vs, s) < vs.q() * g.node_count(),
        0 <= g.target_slot(vs, s) < vs.q() * g.node_count(),
        g.target_slot(vs, g.neighbor_slot(vs, s)) == s,
        g.neighbor_slot(vs, g.target_slot(vs, s)) == s,
{
    let q = vs.q() as int;
    let n = g.node_count();
    lemma_unslot(g, q, s);
    let node = s % n;
    let d = s / n;
    lemma_coords(g, node);
    lemma_unit_velocity(vs, d);
    let (cx, cy, cz) = (g.coord_x(node), g.coord_y(node), g.coord_z(node));
    let (ex, ey, ez) = (vs.ex@[d] as int, vs.ey@[d] as int, vs.ez@[d] as int);
    lemma_wrap(cx, ex, g.x as int);
    lemma_wrap(cy, ey, g.y as int);
    lemma_wrap(cz, ez, g.z as int);
    lemma_wrap(cx, -ex, g.x as int);
    lemma_wrap(cy, -ey, g.y as int);
    lemma_wrap(cz, -ez, g.z as int);
    let src = g.source_node(vs, node, d);
    let dst = g.target_node(vs, node, d);
    lemma_node_at(g, wrap(cx, ex, g.x as int), wrap(cy, ey, g.y as int), wrap(cz, ez, g.z as int));
    lemma_node_at(g, wrap(cx, -ex, g.x as int), wrap(cy, -ey, g.y as int), wrap(cz, -ez, g.z as int));
    lemma_slot(g, q, src, d);
    lemma_slot(g, q, dst, d);
}

} // verus!
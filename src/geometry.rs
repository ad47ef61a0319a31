use vstd::prelude::*;

verus! {

/// A region of lattice nodes, given by a membership predicate on node coordinates.
#[derive(Debug, Clone, Copy, PartialEq, Eq, Structural)]
pub enum Geometry {
    /// The disc of radius `r` around `(cx, cy)` in the xy-plane, extended along z.
    Circle { cx: i64, cy: i64, r: u32 },
    /// The closed half-space behind the plane through `(px, py, pz)` with normal
    /// `(nx, ny, nz)`: the nodes whose offset from that point has a non-positive dot
    /// product with the normal.
    Plane { nx: i32, ny: i32, nz: i32, px: i64, py: i64, pz: i64 },
    /// The nodes with `x0 <= x <= x1` and `y0 <= y <= y1`, extended along z.
    Rect { x0: u64, y0: u64, x1: u64, y1: u64 },
}

impl Geometry {
    pub open spec fn contains_spec(&self, x: int, y: int, z: int) -> bool {
        match *self {
            Geometry::Circle { cx, cy, r } => (x - cx) * (x - cx) + (y - cy) * (y - cy) <= r * r,
            Geometry::Plane { nx, ny, nz, px, py, pz } => (x - px) * nx + (y - py) * ny + (z - pz)
                * nz <= 0,
            Geometry::Rect { x0, y0, x1, y1 } => x0 <= x <= x1 && y0 <= y <= y1,
        }
    }

    /// A disc of radius `r` around `(cx, cy)`.
    pub fn circle(cx: i64, cy: i64, r: u32) -> (g: Geometry)
        ensures
            g == (Geometry::Circle { cx, cy, r }),
    {
        Geometry::Circle { cx, cy, r }
    }

    /// The half-space behind the plane through `point` with normal `normal`.
    pub fn plane(normal: (i32, i32, i32), point: (i64, i64, i64)) -> (g: Geometry)
        ensures
            g == (Geometry::Plane {
                nx: normal.0,
                ny: normal.1,
                nz: normal.2,
                px: point.0,
                py: point.1,
                pz: point.2,
            }),
    {
        Geometry::Plane {
            nx: normal.0,
            ny: normal.1,
            nz: normal.2,
            px: point.0,
            py: point.1,
            pz: point.2,
        }
    }

    /// Whether the node at `(x, y, z)` lies in the region.
    pub fn contains(&self, x: usize, y: usize, z: usize) -> (b: bool)
        ensures
            b == self.contains_spec(x as int, y as int, z as int),
    {
        match *self {
            Geometry::Circle { cx, cy, r } => {
                let dx = x as i128 - cx as i128;
                let dy = y as i128 - cy as i128;
                let rr = r as i128;
                if dx > rr || dx < -rr || dy > rr || dy < -rr {
                    proof {
                        let (a, b, c) = (dx as int, dy as int, rr as int);
                        assert(a * a + b * b > c * c) by (nonlinear_arith)
                            requires
                                c >= 0,
                                a > c || a < -c || b > c || b < -c,
                        ;
                    }
                    false
                } else {
                    let ax: u64 = if dx < 0 {
                        (-dx) as u64
                    } else {
                        dx as u64
                    };
                    let ay: u64 = if dy < 0 {
                        (-dy) as u64
                    } else {
                        dy as u64
                    };
                    let ru = r as u64;
                    proof {
                        assert(ax * ax == dx * dx && ay * ay == dy * dy) by (nonlinear_arith)
                            requires
                                ax == dx || ax == -dx,
                                ay == dy || ay == -dy,
                        ;
                        assert(ax * ax <= ru * ru && ay * ay <= ru * ru && ru * ru
                            < 0x1_0000_0000_0000_0000) by (nonlinear_arith)
                            requires
                                0 <= ru < 0x1_0000_0000,
                                0 <= ax <= ru,
                                0 <= ay <= ru,
                        ;
                    }
                    (ax * ax) as u128 + (ay * ay) as u128 <= (ru * ru) as u128
                }
            },
            Geometry::Plane { nx, ny, nz, px, py, pz } => {
                let dx = x as i128 - px as i128;
                let dy = y as i128 - py as i128;
                let dz = z as i128 - pz as i128;
                proof {
                    let bound: int = 0x1_0000_0000_0000_0000_0000_0000;
                    assert forall|a: int, n: int|
                        -0x2_0000_0000_0000_0000 < a < 0x2_0000_0000_0000_0000 && -0x8000_0000 <= n
                            <= 0x7fff_ffff implies -bound < #[trigger] (a * n) < bound by {
                        assert(-bound < a * n < bound) by (nonlinear_arith)
                            requires
                                -0x2_0000_0000_0000_0000 < a < 0x2_0000_0000_0000_0000,
                                -0x8000_0000 <= n <= 0x7fff_ffff,
                                bound == 0x1_0000_0000_0000_0000_0000_0000,
                        ;
                    }
                    assert(-bound < dx * nx < bound);
                    assert(-bound < dy * ny < bound);
                    assert(-bound < dz * nz < bound);
                }
                dx * (nx as i128) + dy * (ny as i128) + dz * (nz as i128) <= 0
            },
            Geometry::Rect { x0, y0, x1, y1 } => {
                let xx = x as u128;
                let yy = y as u128;
                x0 as u128 <= xx && xx <= x1 as u128 && y0 as u128 <= yy && yy <= y1 as u128
            },
        }
    }
}

} // verus!

use vstd::prelude::*;
use crate::error::ConfigError;
use crate::geometry::Geometry;
use crate::grid::{lemma_slot, StructuredGrid};
use crate::velocity::{lemma_velocity_set_laws, VelocitySet};

verus! {

/// Kind of a boundary condition.
#[derive(Debug)]
pub enum Type<T> {
    /// No-slip wall: populations leaving a covered node are replaced by the ones that
    /// arrived from the opposite direction.
    BounceBack,
    /// Prescribed inflow: every covered node gets these populations, one per direction
    /// (the equilibrium distribution of the target density and velocity).
    Inflow(Vec<T>),
}

/// A boundary condition: its kind and the region of nodes it covers.
#[derive(Debug)]
pub struct Condition<T> {
    pub condition: Type<T>,
    pub geometry: Geometry,
}

impl<T> Condition<T> {
    pub fn new(c: Type<T>, g: Geometry) -> (r: Condition<T>)
        ensures
            r.condition == c,
            r.geometry == g,
    {
        Condition { condition: c, geometry: g }
    }

    pub open spec fn is_bounce_back(&self) -> bool {
        self.condition is BounceBack
    }

    pub open spec fn is_inflow(&self) -> bool {
        self.condition is Inflow
    }
}

/// Some position `j` holds `node` in `en` and `i` in `ed`.
pub open spec fn listed(en: Seq<int>, ed: Seq<int>, node: int, i: int) -> bool {
    exists|j: int| 0 <= j < en.len() && #[trigger] en[j] == node && ed[j] == i
}

/// Entry `j` of the index arrays `tr` / `rf` belongs to the solid node `en[j]` and
/// direction `ed[j]`: it moves the population at `slot(en[j], ed[j])` to
/// `slot(en[j], opposite[ed[j]])`.
pub open spec fn entry_ok(
    g: StructuredGrid,
    vs: &VelocitySet,
    solid: Seq<bool>,
    tr: Seq<usize>,
    rf: Seq<usize>,
    en: Seq<int>,
    ed: Seq<int>,
    j: int,
) -> bool {
    &&& 0 <= en[j] < g.node_count()
    &&& 0 <= ed[j] < vs.q()
    &&& solid[en[j]]
    &&& tr[j] as int == g.slot(en[j], ed[j])
    &&& rf[j] as int == g.slot(en[j], vs.opposite@[ed[j]] as int)
}

/// Entry `j` is valid and comes before node `m`, direction `i`.
spec fn entry_before(
    g: StructuredGrid,
    vs: &VelocitySet,
    solid: Seq<bool>,
    tr: Seq<usize>,
    rf: Seq<usize>,
    en: Seq<int>,
    ed: Seq<int>,
    j: int,
    m: int,
    i: int,
) -> bool {
    &&& entry_ok(g, vs, solid, tr, rf, en, ed, j)
    &&& (en[j] < m || (en[j] == m && ed[j] < i))
}

/// The registered boundary conditions, in insertion order under unique labels, and the
/// index arrays derived from them: for every solid node `n` and direction `i`, an entry
/// with `to_reflect == slot(n, i)` and `reflected == slot(n, opposite[i])`.
pub struct Handler<T> {
    pub grid: StructuredGrid,
    pub q: usize,
    pub labels: Vec<String>,
    pub conditions: Vec<Condition<T>>,
    pub solid: Vec<bool>,
    pub inflow: Vec<Option<usize>>,
    pub to_reflect: Vec<usize>,
    pub reflected: Vec<usize>,
    pub entry_node: Ghost<Seq<int>>,
    pub entry_dir: Ghost<Seq<int>>,
}

impl<T> Handler<T> {
    pub open spec fn node_count(&self) -> int {
        self.grid.node_count()
    }

    /// Condition `k` covers `node`.
    pub open spec fn covers(&self, k: int, node: int) -> bool {
        self.conditions@[k].geometry.contains_spec(
            self.grid.coord_x(node),
            self.grid.coord_y(node),
            self.grid.coord_z(node),
        )
    }

    /// Some bounce-back condition covers `node`.
    pub open spec fn solid_spec(&self, node: int) -> bool {
        exists|k: int|
            0 <= k < self.conditions@.len() && self.conditions@[k].is_bounce_back()
                && #[trigger] self.covers(k, node)
    }

    /// An inflow condition and some other condition both cover `node`.
    pub open spec fn overlapping(&self, node: int) -> bool {
        exists|k1: int, k2: int|
            0 <= k1 < self.conditions@.len() && 0 <= k2 < self.conditions@.len() && k1 != k2
                && self.conditions@[k1].is_inflow() && #[trigger] self.covers(k1, node)
                && #[trigger] self.covers(k2, node)
    }

    pub open spec fn has_label(&self, label: Seq<char>) -> bool {
        exists|k: int| 0 <= k < self.labels@.len() && #[trigger] self.labels@[k]@ == label
    }

    pub open spec fn profile(&self, k: int) -> Seq<T> {
        self.conditions@[k].condition->Inflow_0@
    }

    /// Some entry of the index arrays belongs to `node` and direction `i`.
    pub open spec fn has_entry(&self, node: int, i: int) -> bool {
        listed(self.entry_node@, self.entry_dir@, node, i)
    }

    /// Two different conditions cover `node`.
    pub open spec fn multi_covered(&self, node: int) -> bool {
        exists|k1: int, k2: int|
            0 <= k1 < self.conditions@.len() && 0 <= k2 < self.conditions@.len() && k1 != k2
                && #[trigger] self.covers(k1, node) && #[trigger] self.covers(k2, node)
    }

    /// `solid` and `inflow` describe the first `upto` nodes, none of which is overlapping.
    pub open spec fn classified(&self, solid: Seq<bool>, inflow: Seq<Option<usize>>, upto: int) -> bool {
        &&& forall|m: int| 0 <= m < upto ==> #[trigger] solid[m] == self.solid_spec(m)
        &&& forall|m: int| 0 <= m < upto ==> !self.overlapping(m)
        &&& forall|m: int|
            0 <= m < upto ==> match #[trigger] inflow[m] {
                Some(k) => 0 <= k < self.conditions@.len() && self.conditions@[k as int].is_inflow()
                    && self.covers(k as int, m) && !solid[m],
                None => forall|k: int|
                    0 <= k < self.conditions@.len() && self.conditions@[k].is_inflow() ==> !self.covers(
                        k,
                        m,
                    ),
            }
    }

    /// The population that the inflow condition covering `node` prescribes for direction `d`.
    pub open spec fn inflow_value(&self, node: int, d: int) -> T {
        self.profile(self.inflow@[node]->Some_0 as int)[d]
    }

    /// `after` is `before` with the boundary conditions applied, given the post-streaming
    /// populations `streamed`.
    pub open spec fn applied(&self, vs: &VelocitySet, before: Seq<T>, streamed: Seq<T>, after: Seq<T>) -> bool {
        &&& after.len() == before.len()
        &&& forall|node: int, d: int|
            0 <= node < self.node_count() && 0 <= d < self.q && self.solid@[node]
                ==> #[trigger] after[self.grid.slot(node, d)] == streamed[self.grid.slot(
                node,
                vs.opposite@[d] as int,
            )]
        &&& forall|node: int, d: int|
            0 <= node < self.node_count() && 0 <= d < self.q && self.inflow@[node] is Some
                ==> #[trigger] after[self.grid.slot(node, d)] == self.inflow_value(node, d)
        &&& forall|node: int, d: int|
            0 <= node < self.node_count() && 0 <= d < self.q && !self.solid@[node]
                && self.inflow@[node] is None ==> #[trigger] after[self.grid.slot(node, d)]
                == before[self.grid.slot(node, d)]
    }

    /// The registered conditions are consistent with the grid and the direction count.
    pub open spec fn wf(&self) -> bool {
        &&& self.grid.wf()
        &&& self.q > 0
        &&& self.q * self.node_count() <= usize::MAX
        &&& self.labels@.len() == self.conditions@.len()
        &&& forall|k: int|
            0 <= k < self.conditions@.len() && (#[trigger] self.conditions@[k]).is_inflow()
                ==> self.profile(k).len() == self.q
    }

    /// The derived node sets and index arrays describe the registered conditions.
    pub open spec fn indexed(&self, vs: &VelocitySet) -> bool {
        let n = self.node_count();
        let q = self.q as int;
        &&& self.wf()
        &&& vs.wf()
        &&& vs.q() == self.q
        &&& self.solid@.len() == n
        &&& self.inflow@.len() == n
        &&& forall|node: int| 0 <= node < n ==> #[trigger] self.solid@[node] == self.solid_spec(node)
        &&& forall|node: int| 0 <= node < n ==> !self.overlapping(node)
        &&& forall|node: int|
            0 <= node < n ==> match #[trigger] self.inflow@[node] {
                Some(k) => 0 <= k < self.conditions@.len() && self.conditions@[k as int].is_inflow()
                    && self.covers(k as int, node) && !self.solid@[node],
                None => forall|k: int|
                    0 <= k < self.conditions@.len() && self.conditions@[k].is_inflow() ==> !self.covers(
                        k,
                        node,
                    ),
            }
        &&& self.to_reflect@.len() == self.reflected@.len()
        &&& self.entry_node@.len() == self.to_reflect@.len()
        &&& self.entry_dir@.len() == self.to_reflect@.len()
        &&& forall|j: int|
            0 <= j < self.to_reflect@.len() ==> #[trigger] entry_ok(
                self.grid,
                vs,
                self.solid@,
                self.to_reflect@,
                self.reflected@,
                self.entry_node@,
                self.entry_dir@,
                j,
            )
        &&& forall|j1: int, j2: int|
            0 <= j1 < self.reflected@.len() && 0 <= j2 < self.reflected@.len() && j1 != j2
                ==> #[trigger] self.reflected@[j1] != #[trigger] self.reflected@[j2]
        &&& forall|node: int, i: int|
            0 <= node < n && 0 <= i < q && self.solid@[node] ==> #[trigger] self.has_entry(node, i)
    }
}

impl<T> Handler<T> {
    /// A handler with no boundary conditions on `grid`, for the direction count of `vs`.
    pub fn new(grid: StructuredGrid, vs: &VelocitySet) -> (r: Handler<T>)
        requires
            grid.wf(),
            vs.wf(),
            vs.q() * grid.node_count() <= usize::MAX,
        ensures
            r.wf(),
            r.grid == grid,
            r.q == vs.q(),
            r.conditions@.len() == 0,
    {
        Handler {
            grid,
            q: vs.size(),
            labels: Vec::new(),
            conditions: Vec::new(),
            solid: Vec::new(),
            inflow: Vec::new(),
            to_reflect: Vec::new(),
            reflected: Vec::new(),
            entry_node: Ghost(Seq::empty()),
            entry_dir: Ghost(Seq::empty()),
        }
    }

    /// Registers `bc` under `label`. The derived index arrays are rebuilt only by
    /// `update_bounceback_indices`.
    pub fn add(&mut self, label: String, bc: Condition<T>) -> (r: Result<(), ConfigError>)
        requires
            old(self).wf(),
        ensures
            final(self).wf(),
            final(self).grid == old(self).grid,
            final(self).q == old(self).q,
            old(self).has_label(label@) ==> r == Err::<(), ConfigError>(ConfigError::DuplicateLabel),
            !old(self).has_label(label@) && bc.is_inflow() && bc.condition->Inflow_0@.len()
                != old(self).q ==> r == Err::<(), ConfigError>(ConfigError::InvalidInflowProfile),
            r is Err ==> final(self).labels@ == old(self).labels@ && final(self).conditions@
                == old(self).conditions@,
            r is Ok <==> !old(self).has_label(label@) && (bc.is_inflow()
                ==> bc.condition->Inflow_0@.len() == old(self).q),
            r is Ok ==> final(self).labels@ == old(self).labels@.push(label)
                && final(self).conditions@ == old(self).conditions@.push(bc),
    {
        let mut k: usize = 0;
        while k < self.labels.len()
            invariant
                *self == *old(self),
                self.wf(),
                k <= self.labels@.len(),
                forall|k2: int| 0 <= k2 < k ==> self.labels@[k2]@ != label@,
            decreases self.labels@.len() - k,
        {
            if self.labels[k] == label {
                return Err(ConfigError::DuplicateLabel);
            }
            k = k + 1;
        }
        match &bc.condition {
            Type::Inflow(p) => {
                if p.len() != self.q {
                    return Err(ConfigError::InvalidInflowProfile);
                }
            },
            Type::BounceBack => {},
        }
        self.labels.push(label);
        self.conditions.push(bc);
        proof {
            assert forall|k: int|
                0 <= k < self.conditions@.len() && (#[trigger] self.conditions@[k]).is_inflow()
                    implies self.profile(k).len() == self.q by {
                if k < self.conditions@.len() - 1 {
                    assert(self.conditions@[k] == old(self).conditions@[k]);
                }
            }
        }
        Ok(())
    }

    /// Whether some condition covers `node`, whether a bounce-back one does, which
    /// inflow condition does, and whether two different conditions do.
    fn classify(&self, node: usize) -> (r: (bool, Option<usize>, bool))
        requires
            self.wf(),
            node < self.node_count(),
        ensures
            r.0 == self.solid_spec(node as int),
            match r.1 {
                Some(k) => k < self.conditions@.len() && self.conditions@[k as int].is_inflow()
                    && self.covers(k as int, node as int),
                None => forall|k: int|
                    0 <= k < self.conditions@.len() && self.conditions@[k].is_inflow() ==> !self.covers(
                        k,
                        node as int,
                    ),
            },
            r.2 == self.multi_covered(node as int),
    {
        let gx = self.grid.x;
        let gy = self.grid.y;
        let ix = node % gx;
        let iy = (node / gx) % gy;
        let iz = node / gx / gy;
        let mut solid = false;
        let mut inflow: Option<usize> = None;
        let mut first: Option<usize> = None;
        let mut multi = false;
        let mut k: usize = 0;
        while k < self.conditions.len()
            invariant
                self.wf(),
                k <= self.conditions@.len(),
                ix as int == self.grid.coord_x(node as int),
                iy as int == self.grid.coord_y(node as int),
                iz as int == self.grid.coord_z(node as int),
                solid == exists|k2: int|
                    0 <= k2 < k && self.conditions@[k2].is_bounce_back() && #[trigger] self.covers(
                        k2,
                        node as int,
                    ),
                match inflow {
                    Some(k2) => k2 < k && self.conditions@[k2 as int].is_inflow() && self.covers(
                        k2 as int,
                        node as int,
                    ),
                    None => forall|k2: int|
                        0 <= k2 < k && self.conditions@[k2].is_inflow() ==> !self.covers(
                            k2,
                            node as int,
                        ),
                },
                match first {
                    Some(k2) => k2 < k && self.covers(k2 as int, node as int),
                    None => forall|k2: int| 0 <= k2 < k ==> !self.covers(k2, node as int),
                },
                multi == exists|k1: int, k2: int|
                    0 <= k1 < k && 0 <= k2 < k && k1 != k2 && #[trigger] self.covers(k1, node as int)
                        && #[trigger] self.covers(k2, node as int),
            decreases self.conditions@.len() - k,
        {
            let c = &self.conditions[k];
            let inside = c.geometry.contains(ix, iy, iz);
            proof {
                assert(inside == self.covers(k as int, node as int));
            }
            if inside {
                match first {
                    Some(f) => {
                        multi = true;
                        proof {
                            assert(self.covers(f as int, node as int) && self.covers(
                                k as int,
                                node as int,
                            ));
                        }
                    },
                    None => {
                        first = Some(k);
                    },
                }
                match &c.condition {
                    Type::BounceBack => {
                        solid = true;
                    },
                    Type::Inflow(_) => {
                        inflow = Some(k);
                    },
                }
            }
            proof {
                if !inside {
                    assert(!self.covers(k as int, node as int));
                }
                assert(multi == exists|k1: int, k2: int|
                    0 <= k1 < k + 1 && 0 <= k2 < k + 1 && k1 != k2 && #[trigger] self.covers(
                        k1,
                        node as int,
                    ) && #[trigger] self.covers(k2, node as int));
            }
            k = k + 1;
        }
        (solid, inflow, multi)
    }

    /// Marks the solid nodes (covered by a bounce-back condition) and the inflow nodes,
    /// and rebuilds the bounce-back index arrays. Fails on the first node that an inflow
    /// condition and another condition both cover.
    pub fn update_bounceback_indices(&mut self, vs: &VelocitySet) -> (r: Result<(), ConfigError>)
        requires
            old(self).wf(),
            vs.wf(),
            vs.q() == old(self).q,
        ensures
            final(self).wf(),
            final(self).grid == old(self).grid,
            final(self).q == old(self).q,
            final(self).labels@ == old(self).labels@,
            final(self).conditions@ == old(self).conditions@,
            r is Ok <==> forall|node: int|
                0 <= node < old(self).node_count() ==> !old(self).overlapping(node),
            match r {
                Ok(_) => final(self).indexed(vs),
                Err(ConfigError::OverlappingBoundary { node }) => node < old(self).node_count()
                    && old(self).overlapping(node as int),
                Err(_) => false,
            },
    {
        let n = self.grid.size();
        let q = self.q;
        let mut solid: Vec<bool> = Vec::new();
        let mut inflow: Vec<Option<usize>> = Vec::new();
        let mut node: usize = 0;
        while node < n
            invariant
                *self == *old(self),
                self.wf(),
                n == self.node_count(),
                node <= n,
                solid@.len() == node,
                inflow@.len() == node,
                self.classified(solid@, inflow@, node as int),
            decreases n - node,
        {
            let (s, inf, multi) = self.classify(node);
            let ghost nd = node as int;
            if inf.is_some() && multi {
                proof {
                    let k = inf->Some_0 as int;
                    let (k1, k2) = choose|k1: int, k2: int|
                        0 <= k1 < self.conditions@.len() && 0 <= k2 < self.conditions@.len()
                            && k1 != k2 && #[trigger] self.covers(k1, nd) && #[trigger] self.covers(
                            k2,
                            nd,
                        );
                    let other = if k1 != k { k1 } else { k2 };
                    assert(self.covers(k, nd) && self.covers(other, nd));
                    assert(self.overlapping(nd));
                }
                return Err(ConfigError::OverlappingBoundary { node });
            }
            proof {
                if self.overlapping(nd) {
                    let (k1, k2) = choose|k1: int, k2: int|
                        0 <= k1 < self.conditions@.len() && 0 <= k2 < self.conditions@.len()
                            && k1 != k2 && self.conditions@[k1].is_inflow() && #[trigger] self.covers(
                            k1,
                            nd,
                        ) && #[trigger] self.covers(k2, nd);
                    assert(self.multi_covered(nd));
                }
                if s && inf.is_some() {
                    let k = inf->Some_0 as int;
                    let kb = choose|kb: int|
                        0 <= kb < self.conditions@.len() && self.conditions@[kb].is_bounce_back()
                            && #[trigger] self.covers(kb, nd);
                    assert(self.covers(k, nd) && self.covers(kb, nd) && kb != k);
                    assert(self.multi_covered(nd));
                }
            }
            solid.push(s);
            inflow.push(inf);
            node = node + 1;
        }
        proof {
            lemma_velocity_set_laws(vs);
        }
        let mut to_reflect: Vec<usize> = Vec::new();
        let mut reflected: Vec<usize> = Vec::new();
        let ghost mut en: Seq<int> = Seq::empty();
        let ghost mut ed: Seq<int> = Seq::empty();
        let mut m: usize = 0;
        while m < n
            invariant
                *self == *old(self),
                self.classified(solid@, inflow@, n as int),
                inflow@.len() == n,
                self.wf(),
                vs.wf(),
                vs.q() == q,
                q == self.q,
                n == self.node_count(),
                m <= n,
                solid@.len() == n,
                to_reflect@.len() == reflected@.len(),
                en.len() == to_reflect@.len(),
                ed.len() == to_reflect@.len(),
                forall|i: int|
                    0 <= i < q ==> #[trigger] vs.opposite@[vs.opposite@[i] as int] as int == i,
                forall|j: int|
                    0 <= j < to_reflect@.len() ==> #[trigger] entry_before(
                        self.grid,
                        vs,
                        solid@,
                        to_reflect@,
                        reflected@,
                        en,
                        ed,
                        j,
                        m as int,
                        0,
                    ),
                forall|j1: int, j2: int|
                    0 <= j1 < reflected@.len() && 0 <= j2 < reflected@.len() && j1 != j2
                        ==> #[trigger] reflected@[j1] != #[trigger] reflected@[j2],
                forall|nd: int, i: int|
                    0 <= nd < m && 0 <= i < q && solid@[nd] ==> #[trigger] listed(en, ed, nd, i),
            decreases n - m,
        {
            if solid[m] {
                let mut i: usize = 0;
                while i < q
                    invariant
                        *self == *old(self),
                        self.classified(solid@, inflow@, n as int),
                        inflow@.len() == n,
                        self.wf(),
                        vs.wf(),
                        vs.q() == q,
                        q == self.q,
                        n == self.node_count(),
                        m < n,
                        i <= q,
                        solid@.len() == n,
                        solid@[m as int],
                        to_reflect@.len() == reflected@.len(),
                        en.len() == to_reflect@.len(),
                        ed.len() == to_reflect@.len(),
                        forall|i2: int|
                            0 <= i2 < q ==> #[trigger] vs.opposite@[vs.opposite@[i2] as int] as int
                                == i2,
                        forall|j: int|
                            0 <= j < to_reflect@.len() ==> #[trigger] entry_before(
                                self.grid,
                                vs,
                                solid@,
                                to_reflect@,
                                reflected@,
                                en,
                                ed,
                                j,
                                m as int,
                                i as int,
                            ),
                        forall|j1: int, j2: int|
                            0 <= j1 < reflected@.len() && 0 <= j2 < reflected@.len() && j1 != j2
                                ==> #[trigger] reflected@[j1] != #[trigger] reflected@[j2],
                        forall|nd: int, i2: int|
                            0 <= nd < m && 0 <= i2 < q && solid@[nd] ==> #[trigger] listed(
                                en,
                                ed,
                                nd,
                                i2,
                            ),
                        forall|i2: int| 0 <= i2 < i ==> #[trigger] listed(en, ed, m as int, i2),
                    decreases q - i,
                {
                    let o = vs.opposite[i];
                    let a = self.grid.flatten(m, i, q);
                    let b = self.grid.flatten(m, o, q);
                    let ghost en0 = en;
                    let ghost ed0 = ed;
                    let ghost tr0 = to_reflect@;
                    let ghost rf0 = reflected@;
                    proof {
                        let len = reflected@.len() as int;
                        assert forall|j: int| 0 <= j < len implies reflected@[j] != b by {
                            assert(entry_before(self.grid, vs, solid@, tr0, rf0, en0, ed0, j, m as int, i as int));
                            let ej = en[j];
                            let oj = vs.opposite@[ed[j]] as int;
                            lemma_slot(self.grid, q as int, ej, oj);
                            lemma_slot(self.grid, q as int, m as int, o as int);
                            if ej == m as int {
                                assert(vs.opposite@[oj] as int == ed[j]);
                                assert(vs.opposite@[o as int] as int == i);
                                assert(oj != o as int);
                            }
                        }
                        en = en.push(m as int);
                        ed = ed.push(i as int);
                        assert forall|nd: int, i2: int|
                            0 <= nd < m && 0 <= i2 < q && solid@[nd] implies #[trigger] listed(
                                en,
                                ed,
                                nd,
                                i2,
                            ) by {
                            assert(listed(en0, ed0, nd, i2));
                            let j = choose|j: int|
                                0 <= j < en0.len() && #[trigger] en0[j] == nd && ed0[j] == i2;
                            assert(en[j] == nd);
                        }
                        assert forall|i2: int| 0 <= i2 < i + 1 implies #[trigger] listed(
                            en,
                            ed,
                            m as int,
                            i2,
                        ) by {
                            if i2 < i {
                                assert(listed(en0, ed0, m as int, i2));
                                let j = choose|j: int|
                                    0 <= j < en0.len() && #[trigger] en0[j] == m && ed0[j] == i2;
                                assert(en[j] == m);
                            } else {
                                assert(en[en.len() - 1] == m);
                            }
                        }
                    }
                    to_reflect.push(a);
                    reflected.push(b);
                    proof {
                        let len = to_reflect@.len() as int;
                        assert forall|j: int| 0 <= j < len implies #[trigger] entry_before(
                            self.grid,
                            vs,
                            solid@,
                            to_reflect@,
                            reflected@,
                            en,
                            ed,
                            j,
                            m as int,
                            i + 1,
                        ) by {
                            if j < len - 1 {
                                assert(entry_before(self.grid, vs, solid@, tr0, rf0, en0, ed0, j, m as int, i as int));
                            }
                        }
                    }
                    i = i + 1;
                }
            }
            proof {
                assert forall|j: int| 0 <= j < to_reflect@.len() implies #[trigger] entry_before(
                    self.grid,
                    vs,
                    solid@,
                    to_reflect@,
                    reflected@,
                    en,
                    ed,
                    j,
                    m + 1,
                    0,
                ) by {
                    if solid@[m as int] {
                        assert(entry_before(self.grid, vs, solid@, to_reflect@, reflected@, en, ed, j, m as int, q as int));
                    } else {
                        assert(entry_before(self.grid, vs, solid@, to_reflect@, reflected@, en, ed, j, m as int, 0));
                    }
                }
            }
            m = m + 1;
        }
        let ghost solid_g = solid@;
        let ghost tr_g = to_reflect@;
        let ghost rf_g = reflected@;
        self.solid = solid;
        self.inflow = inflow;
        self.to_reflect = to_reflect;
        self.reflected = reflected;
        self.entry_node = Ghost(en);
        self.entry_dir = Ghost(ed);
        proof {
            assert forall|j: int| 0 <= j < self.to_reflect@.len() implies #[trigger] entry_ok(
                self.grid,
                vs,
                self.solid@,
                self.to_reflect@,
                self.reflected@,
                self.entry_node@,
                self.entry_dir@,
                j,
            ) by {
                assert(entry_before(self.grid, vs, solid_g, tr_g, rf_g, en, ed, j, n as int, 0));
            }
            assert forall|node: int, k: int| #[trigger] self.covers(k, node) == old(self).covers(
                k,
                node,
            ) by {}
            assert forall|node: int| #[trigger] self.solid_spec(node) == old(self).solid_spec(
                node,
            ) by {
                if self.solid_spec(node) {
                    let k = choose|k: int|
                        0 <= k < self.conditions@.len() && self.conditions@[k].is_bounce_back()
                            && #[trigger] self.covers(k, node);
                    assert(old(self).covers(k, node));
                }
                if old(self).solid_spec(node) {
                    let k = choose|k: int|
                        0 <= k < old(self).conditions@.len() && old(self).conditions@[k].is_bounce_back()
                            && #[trigger] old(self).covers(k, node);
                    assert(self.covers(k, node));
                }
            }
            assert forall|node: int| 0 <= node < n implies !#[trigger] self.overlapping(node) by {
                assert(!old(self).overlapping(node));
                if self.overlapping(node) {
                    let (k1, k2) = choose|k1: int, k2: int|
                        0 <= k1 < self.conditions@.len() && 0 <= k2 < self.conditions@.len()
                            && k1 != k2 && self.conditions@[k1].is_inflow() && #[trigger] self.covers(
                            k1,
                            node,
                        ) && #[trigger] self.covers(k2, node);
                    assert(old(self).covers(k1, node) && old(self).covers(k2, node));
                }
            }
        }
        Ok(())
    }

    /// Whether a bounce-back condition covers `node`.
    pub fn solid_boundary(&self, node: usize) -> (b: bool)
        requires
            self.wf(),
            node < self.node_count(),
        ensures
            b == self.solid_spec(node as int),
    {
        self.classify(node).0
    }

    /// Index of the first registered condition, in insertion order, that covers `node`.
    pub fn idx(&self, node: usize) -> (r: Option<usize>)
        requires
            self.wf(),
            node < self.node_count(),
        ensures
            match r {
                Some(k) => k < self.conditions@.len() && self.covers(k as int, node as int)
                    && forall|k2: int| 0 <= k2 < k ==> !self.covers(k2, node as int),
                None => forall|k2: int|
                    0 <= k2 < self.conditions@.len() ==> !self.covers(k2, node as int),
            },
    {
        let gx = self.grid.x;
        let gy = self.grid.y;
        let ix = node % gx;
        let iy = (node / gx) % gy;
        let iz = node / gx / gy;
        let mut k: usize = 0;
        while k < self.conditions.len()
            invariant
                k <= self.conditions@.len(),
                ix as int == self.grid.coord_x(node as int),
                iy as int == self.grid.coord_y(node as int),
                iz as int == self.grid.coord_z(node as int),
                forall|k2: int| 0 <= k2 < k ==> !self.covers(k2, node as int),
            decreases self.conditions@.len() - k,
        {
            if self.conditions[k].geometry.contains(ix, iy, iz) {
                return Some(k);
            }
            k = k + 1;
        }
        None
    }

}

impl<T: Copy> Handler<T> {
    /// Applies the boundary conditions to the post-collision populations `f`, given the
    /// post-streaming populations `f_hlp`: at a solid node the population in direction
    /// `d` becomes the streamed population of the opposite direction; at an inflow node
    /// it becomes the inflow profile's population for `d`; elsewhere it is kept.
    pub fn apply(&self, vs: &VelocitySet, f: &mut Vec<T>, f_hlp: &Vec<T>)
        requires
            self.indexed(vs),
            old(f)@.len() == self.q * self.node_count(),
            f_hlp@.len() == self.q * self.node_count(),
        ensures
            self.applied(vs, old(f)@, f_hlp@, final(f)@),
    {
        proof {
            lemma_velocity_set_laws(vs);
        }
        let q = self.q;
        let n = self.grid.size();
        let ghost f0 = f@;
        let mut j: usize = 0;
        while j < self.to_reflect.len()
            invariant
                self.indexed(vs),
                q == self.q,
                n == self.node_count(),
                f@.len() == q * n,
                f_hlp@.len() == q * n,
                j <= self.to_reflect@.len(),
                forall|j2: int|
                    0 <= j2 < j ==> f@[#[trigger] self.reflected@[j2] as int]
                        == f_hlp@[self.to_reflect@[j2] as int],
                forall|s: int|
                    0 <= s < q * n && !self.solid@[s % (n as int)] ==> #[trigger] f@[s] == f0[s],
            decreases self.to_reflect@.len() - j,
        {
            proof {
                assert(entry_ok(
                    self.grid,
                    vs,
                    self.solid@,
                    self.to_reflect@,
                    self.reflected@,
                    self.entry_node@,
                    self.entry_dir@,
                    j as int,
                ));
                let en = self.entry_node@[j as int];
                let ed = self.entry_dir@[j as int];
                lemma_slot(self.grid, q as int, en, ed);
                lemma_slot(self.grid, q as int, en, vs.opposite@[ed] as int);
            }
            let v = f_hlp[self.to_reflect[j]];
            let ghost fb = f@;
            f.set(self.reflected[j], v);
            proof {
                assert forall|j2: int| 0 <= j2 < j + 1 implies f@[#[trigger] self.reflected@[j2] as int]
                    == f_hlp@[self.to_reflect@[j2] as int] by {
                    if j2 == j {
                        assert(f@[self.reflected@[j as int] as int] == v);
                        assert(v == f_hlp@[self.to_reflect@[j as int] as int]);
                    } else {
                        assert(entry_ok(
                            self.grid,
                            vs,
                            self.solid@,
                            self.to_reflect@,
                            self.reflected@,
                            self.entry_node@,
                            self.entry_dir@,
                            j2,
                        ));
                        lemma_slot(
                            self.grid,
                            q as int,
                            self.entry_node@[j2],
                            vs.opposite@[self.entry_dir@[j2]] as int,
                        );
                        assert(self.reflected@[j2] != self.reflected@[j as int]);
                        assert(fb[self.reflected@[j2] as int] == f_hlp@[self.to_reflect@[j2] as int]);
                    }
                }
                assert forall|s: int|
                    0 <= s < q * n && !self.solid@[s % (n as int)] implies #[trigger] f@[s] == f0[s] by {
                    assert(fb[s] == f0[s]);
                }
            }
            j = j + 1;
        }
        let ghost fa = f@;
        proof {
            assert forall|node: int, d: int|
                0 <= node < n && 0 <= d < q && self.solid@[node] implies #[trigger] fa[self.grid.slot(
                    node,
                    d,
                )] == f_hlp@[self.grid.slot(node, vs.opposite@[d] as int)] by {
                let od = vs.opposite@[d] as int;
                assert(self.has_entry(node, od));
                let jj = choose|jj: int|
                    0 <= jj < self.entry_node@.len() && #[trigger] self.entry_node@[jj] == node
                        && self.entry_dir@[jj] == od;
                assert(entry_ok(
                    self.grid,
                    vs,
                    self.solid@,
                    self.to_reflect@,
                    self.reflected@,
                    self.entry_node@,
                    self.entry_dir@,
                    jj,
                ));
                assert(vs.opposite@[od] as int == d);
                assert(fa[self.reflected@[jj] as int] == f_hlp@[self.to_reflect@[jj] as int]);
            }
            assert forall|node: int, d: int|
                0 <= node < n && 0 <= d < q && !self.solid@[node] implies #[trigger] fa[self.grid.slot(
                    node,
                    d,
                )] == f0[self.grid.slot(node, d)] by {
                lemma_slot(self.grid, q as int, node, d);
            }
        }
        let mut node: usize = 0;
        while node < n
            invariant
                self.indexed(vs),
                q == self.q,
                n == self.node_count(),
                node <= n,
                f@.len() == q * n,
                forall|nd: int, d: int|
                    0 <= nd < n && 0 <= d < q ==> #[trigger] f@[self.grid.slot(nd, d)] == if nd < node
                        && self.inflow@[nd] is Some {
                        self.inflow_value(nd, d)
                    } else {
                        fa[self.grid.slot(nd, d)]
                    },
            decreases n - node,
        {
            match self.inflow[node] {
                Some(k) => {
                    match &self.conditions[k].condition {
                        Type::Inflow(p) => {
                            let mut d: usize = 0;
                            while d < q
                                invariant
                                    self.indexed(vs),
                                    q == self.q,
                                    n == self.node_count(),
                                    node < n,
                                    self.inflow@[node as int] == Some(k),
                                    p@ == self.profile(k as int),
                                    d <= q,
                                    f@.len() == q * n,
                                    forall|nd: int, d2: int|
                                        0 <= nd < n && 0 <= d2 < q ==> #[trigger] f@[self.grid.slot(
                                            nd,
                                            d2,
                                        )] == if (nd < node && self.inflow@[nd] is Some) || (nd
                                            == node && d2 < d) {
                                            self.inflow_value(nd, d2)
                                        } else {
                                            fa[self.grid.slot(nd, d2)]
                                        },
                                decreases q - d,
                            {
                                let s = self.grid.flatten(node, d, q);
                                let ghost fb = f@;
                                f.set(s, p[d]);
                                proof {
                                    assert forall|nd: int, d2: int|
                                        0 <= nd < n && 0 <= d2 < q implies #[trigger] f@[self.grid.slot(
                                            nd,
                                            d2,
                                        )] == if (nd < node && self.inflow@[nd] is Some) || (nd
                                            == node && d2 < d + 1) {
                                            self.inflow_value(nd, d2)
                                        } else {
                                            fa[self.grid.slot(nd, d2)]
                                        } by {
                                        lemma_slot(self.grid, q as int, nd, d2);
                                        lemma_slot(self.grid, q as int, node as int, d as int);
                                        if nd != node || d2 != d {
                                            assert(fb[self.grid.slot(nd, d2)] == f@[self.grid.slot(
                                                nd,
                                                d2,
                                            )]);
                                        }
                                    }
                                }
                                d = d + 1;
                            }
                        },
                        Type::BounceBack => {},
                    }
                },
                None => {},
            }
            node = node + 1;
        }
    }
}

} // verus!
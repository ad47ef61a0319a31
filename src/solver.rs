use vstd::prelude::*;
use crate::boundary::Handler;
use crate::grid::{lemma_streaming_bijection, StructuredGrid};
use crate::velocity::VelocitySet;

verus! {

/// The numerical model that relaxes populations toward local equilibrium. Implemented by
/// users of the solver for their number type; the solver only moves populations around.
pub trait Physics<T> {
    /// The equilibrium populations of the configured initial density and velocity
    /// fields, in slot order (`d * node_count + node`).
    fn initial_populations(&self, grid: &StructuredGrid, vs: &VelocitySet) -> (r: Vec<T>)
        requires
            grid.wf(),
            vs.wf(),
        ensures
            r@.len() == vs.q() * grid.node_count(),
    ;

    /// Derives density and velocity from the streamed populations `f` (velocity zero at
    /// the nodes marked in `solid`) and relaxes `f` toward equilibrium in place.
    fn collision(
        &mut self,
        f: &mut Vec<T>,
        solid: &Vec<bool>,
        grid: &StructuredGrid,
        vs: &VelocitySet,
    )
        ensures
            final(f)@.len() == old(f)@.len(),
    ;
}

/// A copy of `v`, element by element.
pub fn copy_populations<T: Copy>(v: &Vec<T>) -> (r: Vec<T>)
    ensures
        r@ == v@,
{
    let mut r: Vec<T> = Vec::new();
    let mut i: usize = 0;
    while i < v.len()
        invariant
            i <= v@.len(),
            r@ == v@.subrange(0, i as int),
        decreases v@.len() - i,
    {
        r.push(v[i]);
        i = i + 1;
        proof {
            assert(r@ =~= v@.subrange(0, i as int));
        }
    }
    proof {
        assert(r@ =~= v@);
    }
    r
}

/// Gathers `f` through `index`: slot `s` of the result holds `f[index[s]]`.
pub fn gather<T: Copy>(f: &Vec<T>, index: &Vec<usize>) -> (r: Vec<T>)
    requires
        forall|s: int| 0 <= s < index@.len() ==> (#[trigger] index@[s] as int) < f@.len(),
    ensures
        r@.len() == index@.len(),
        forall|s: int| 0 <= s < index@.len() ==> #[trigger] r@[s] == f@[index@[s] as int],
{
    let mut r: Vec<T> = Vec::new();
    let mut s: usize = 0;
    while s < index.len()
        invariant
            s <= index@.len(),
            r@.len() == s,
            forall|s2: int| 0 <= s2 < index@.len() ==> (#[trigger] index@[s2] as int) < f@.len(),
            forall|s2: int| 0 <= s2 < s ==> #[trigger] r@[s2] == f@[index@[s2] as int],
        decreases index@.len() - s,
    {
        r.push(f[index[s]]);
        s = s + 1;
    }
    r
}

/// A sequence that picks the elements of `a` at pairwise distinct positions `p`, one
/// for each element of `a`, holds the same elements as `a`.
pub proof fn lemma_permuted_multiset<A>(a: Seq<A>, b: Seq<A>, p: Seq<int>)
    requires
        a.len() == b.len(),
        p.len() == b.len(),
        forall|s: int| 0 <= s < p.len() ==> 0 <= #[trigger] p[s] < a.len() && b[s] == a[p[s]],
        forall|s: int, t: int| 0 <= s < t < p.len() ==> #[trigger] p[s] != #[trigger] p[t],
    ensures
        b.to_multiset() =~= a.to_multiset(),
    decreases b.len(),
{
    broadcast use vstd::multiset::group_multiset_axioms;
    broadcast use vstd::seq_lib::to_multiset_build, vstd::seq_lib::to_multiset_remove,
        vstd::seq_lib::to_multiset_len;

    if b.len() == 0 {
        assert(a.to_multiset().len() == 0);
        assert(b.to_multiset().len() == 0);
    } else {
        let n = b.len() - 1;
        let i = p[n];
        let a2 = a.remove(i);
        let b2 = b.drop_last();
        let p2 = Seq::new(n as nat, |s: int| if p[s] < i { p[s] } else { p[s] - 1 });
        assert forall|s: int| 0 <= s < p2.len() implies 0 <= #[trigger] p2[s] < a2.len() && b2[s]
            == a2[p2[s]] by {
            assert(p[s] != p[n]);
        }
        assert forall|s: int, t: int| 0 <= s < t < p2.len() implies #[trigger] p2[s]
            != #[trigger] p2[t] by {
            assert(p[s] != p[t]);
            assert(p[s] != p[n]);
            assert(p[t] != p[n]);
        }
        lemma_permuted_multiset(a2, b2, p2);
        assert(b =~= b2.push(b[n]));
        assert(a.to_multiset().count(a[i]) > 0) by {
            vstd::seq_lib::to_multiset_contains(a, a[i]);
            assert(a.contains(a[i]));
        }
        assert(a.to_multiset() =~= a2.to_multiset().insert(a[i]));
    }
}

/// Lattice-Boltzmann solver: owns the current populations `f` and the post-streaming
/// working copy `f_hlp`, and runs stream, collide and boundary application in order.
pub struct Solver<T, P> {
    pub vs: VelocitySet,
    pub grid: StructuredGrid,
    pub bcs: Handler<T>,
    pub physics: P,
    pub f: Vec<T>,
    pub f_hlp: Vec<T>,
    pub neighbors: Vec<usize>,
    pub initialized: bool,
}

impl<T: Copy, P: Physics<T>> Solver<T, P> {
    pub open spec fn slot_count(&self) -> int {
        self.vs.q() * self.grid.node_count()
    }

    /// Population `f` streamed by one lattice hop with periodic wrap.
    pub open spec fn streamed(&self, f: Seq<T>) -> Seq<T> {
        Seq::new(
            self.slot_count() as nat,
            |s: int| f[self.grid.neighbor_slot(&self.vs, s)],
        )
    }

    /// Streaming with periodic wrap only permutes the populations: the streamed array
    /// holds the same multiset of values as the array it was streamed from.
    pub proof fn lemma_streaming_permutes(&self, f: Seq<T>)
        requires
            self.grid.wf(),
            self.vs.wf(),
            f.len() == self.slot_count(),
        ensures
            self.streamed(f).to_multiset() =~= f.to_multiset(),
    {
        let len = self.slot_count();
        let p = Seq::new(len as nat, |s: int| self.grid.neighbor_slot(&self.vs, s));
        assert forall|s: int| 0 <= s < p.len() implies 0 <= #[trigger] p[s] < f.len()
            && self.streamed(f)[s] == f[p[s]] by {
            lemma_streaming_bijection(self.grid, &self.vs, s);
        }
        assert forall|s: int, t: int| 0 <= s < t < p.len() implies #[trigger] p[s]
            != #[trigger] p[t] by {
            lemma_streaming_bijection(self.grid, &self.vs, s);
            lemma_streaming_bijection(self.grid, &self.vs, t);
        }
        lemma_permuted_multiset(f, self.streamed(f), p);
    }

    pub open spec fn wf(&self) -> bool {
        &&& self.grid.wf()
        &&& self.vs.wf()
        &&& self.bcs.grid == self.grid
        &&& self.bcs.indexed(&self.vs)
        &&& self.neighbors@.len() == self.slot_count()
        &&& forall|s: int|
            0 <= s < self.slot_count() ==> #[trigger] self.neighbors@[s] as int
                == self.grid.neighbor_slot(&self.vs, s)
        &&& self.initialized ==> self.f@.len() == self.slot_count() && self.f_hlp@.len()
            == self.slot_count()
    }

    /// A solver over `grid` and `vs` with the boundary conditions `bcs`, whose index
    /// arrays must already be built for this grid. Populations are set by `initialize`.
    pub fn new(distribution: VelocitySet, grid: StructuredGrid, bcs: Handler<T>, physics: P) -> (r:
        Self)
        requires
            grid.wf(),
            distribution.wf(),
            bcs.grid == grid,
            bcs.indexed(&distribution),
        ensures
            r.wf(),
            !r.initialized,
            r.grid == grid,
            r.vs == distribution,
            r.bcs == bcs,
    {
        let neighbors = grid.neighbors_index(&distribution);
        Solver {
            vs: distribution,
            grid,
            bcs,
            physics,
            f: Vec::new(),
            f_hlp: Vec::new(),
            neighbors,
            initialized: false,
        }
    }

    /// Sets both population arrays to the equilibrium of the initial fields.
    pub fn initialize(&mut self)
        requires
            old(self).wf(),
        ensures
            final(self).wf(),
            final(self).initialized,
            final(self).f_hlp@ == final(self).f@,
            final(self).grid == old(self).grid,
            final(self).vs == old(self).vs,
            final(self).bcs == old(self).bcs,
    {
        let f = self.physics.initial_populations(&self.grid, &self.vs);
        self.f_hlp = copy_populations(&f);
        self.f = f;
        self.initialized = true;
    }

    /// Current populations.
    pub fn f_ref(&self) -> (r: &Vec<T>)
        ensures
            r@ == self.f@,
    {
        &self.f
    }

    /// Streaming step: the working copy becomes the current populations moved one hop
    /// along their own velocities.
    fn streaming(&mut self)
        requires
            old(self).wf(),
            old(self).initialized,
        ensures
            final(self).wf(),
            final(self).initialized,
            final(self).f@ == old(self).f@,
            final(self).f_hlp@ == old(self).streamed(old(self).f@),
            final(self).grid == old(self).grid,
            final(self).vs == old(self).vs,
            final(self).bcs == old(self).bcs,
    {
        proof {
            assert forall|s: int| 0 <= s < self.neighbors@.len() implies (
            #[trigger] self.neighbors@[s] as int) < self.f@.len() by {
                lemma_streaming_bijection(self.grid, &self.vs, s);
            }
        }
        self.f_hlp = gather(&self.f, &self.neighbors);
        proof {
            assert(self.f_hlp@ =~= old(self).streamed(old(self).f@));
        }
    }

    /// Collision step: the current populations become the streamed ones relaxed by the
    /// physics model.
    fn collision(&mut self)
        requires
            old(self).wf(),
            old(self).initialized,
        ensures
            final(self).wf(),
            final(self).initialized,
            final(self).f_hlp@ == old(self).f_hlp@,
            final(self).grid == old(self).grid,
            final(self).vs == old(self).vs,
            final(self).bcs == old(self).bcs,
    {
        let mut f = copy_populations(&self.f_hlp);
        self.physics.collision(&mut f, &self.bcs.solid, &self.grid, &self.vs);
        self.f = f;
    }

    /// Boundary step: overrides the populations of solid and inflow nodes.
    fn apply_boundary_conditions(&mut self)
        requires
            old(self).wf(),
            old(self).initialized,
        ensures
            final(self).wf(),
            final(self).initialized,
            final(self).f_hlp@ == old(self).f_hlp@,
            final(self).grid == old(self).grid,
            final(self).vs == old(self).vs,
            final(self).bcs == old(self).bcs,
            final(self).bcs.applied(&final(self).vs, old(self).f@, final(self).f_hlp@, final(self).f@),
    {
        self.bcs.apply(&self.vs, &mut self.f, &self.f_hlp);
    }

    /// One time step: streaming, collision, then boundary conditions. Afterwards the
    /// working copy holds the streamed populations, and every solid or inflow node
    /// holds what the boundary conditions prescribe from them.
    pub fn run(&mut self)
        requires
            old(self).wf(),
            old(self).initialized,
        ensures
            final(self).wf(),
            final(self).initialized,
            final(self).grid == old(self).grid,
            final(self).vs == old(self).vs,
            final(self).bcs == old(self).bcs,
            final(self).f_hlp@ == old(self).streamed(old(self).f@),
            exists|collided: Seq<T>|
                final(self).bcs.applied(&final(self).vs, collided, final(self).f_hlp@, final(self).f@),
    {
        self.streaming();
        self.collision();
        let ghost collided = self.f@;
        self.apply_boundary_conditions();
        proof {
            assert(self.bcs.applied(&self.vs, collided, self.f_hlp@, self.f@));
        }
    }
}

} // verus!
